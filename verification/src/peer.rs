//! The daemon-to-daemon session: a mutual Ed25519 challenge-response
//! handshake against the key stored at pairing, then history sync. The
//! session is a state machine; the caller performs each action (database,
//! socket) and hands back what came of it.

use vstd::prelude::*;
use crate::crypto::{
    auth_message, challenge_message, ed25519_accepts, ed25519_public_key_of,
    ed25519_signature_of, random_nonce, signature_valid, to_array, verify_signature, Identity,
};
use crate::hexcodec::{decode_hex, encode_bytes, hex_decode, hex_encode};
use crate::protocol::{HistoryItem, PeerMessage};
use vstd::string::StringSliceAdditionalSpecFns;
use vstd::utf8::encode_utf8;

verus! {

/// Where a peer session stands.
#[derive(Debug)]
pub enum PeerState {
    /// Waiting for the peer's `HandshakeInit`.
    AwaitingInit,
    /// Waiting for the stored public key of the device that announced itself.
    AwaitingKey { device_id: String, peer_challenge: String },
    /// Our response is sent; waiting for the peer to sign our challenge.
    AwaitingAck { device_id: String, peer_key: [u8; 32], local_challenge: String },
    /// The peer is authenticated; waiting for the newest timestamp we hold
    /// from it.
    AwaitingHistoryMark { device_id: String },
    /// Authenticated and exchanging history.
    Syncing { device_id: String },
    /// The session is over.
    Closed,
}

/// What happened since the last action.
#[derive(Debug)]
pub enum PeerInput {
    /// A message arrived and parsed.
    Received(PeerMessage),
    /// A frame arrived that is no text, or no peer message.
    Unreadable,
    /// The socket closed or failed.
    Disconnected,
    /// The public key stored for the announced device, if it is paired.
    StoredKey(Option<Vec<u8>>),
    /// The newest history timestamp stored from the peer's device, if any.
    LastTimestamp(Option<i64>),
    /// The history rows newer than the peer asked for.
    History(Vec<HistoryItem>),
}

/// Why a session ends in error.
#[derive(Debug, Clone, Copy, PartialEq, Eq, Structural)]
pub enum PeerError {
    /// A handshake frame that is no text or no peer message.
    MalformedMessage,
    /// A handshake acknowledgement whose signature is no hex.
    MalformedSignature,
    /// An input that the session did not ask for.
    OutOfOrder,
}

/// What the caller does next.
#[derive(Debug)]
pub enum PeerAction {
    /// Look up the stored public key of a device; answer with `StoredKey`.
    LookupDevice(String),
    /// Send a message, then receive; a failed send ends the session in error.
    Send(PeerMessage),
    /// Look up the newest history timestamp from a device; answer with
    /// `LastTimestamp`.
    QueryLastTimestamp(String),
    /// Fetch the history rows newer than a timestamp; answer with `History`.
    QueryHistorySince(i64),
    /// Send a message if possible, then receive.
    Reply(PeerMessage),
    /// Store the visits (history and event log), then receive.
    StoreVisits(Vec<HistoryItem>),
    /// Receive the next message.
    Receive,
    /// End the session normally.
    Finish,
    /// End the session with an error.
    Fail(PeerError),
}

/// Whether the peer has proved it holds the key of its device.
pub open spec fn authenticated(state: PeerState) -> bool {
    state is AwaitingHistoryMark || state is Syncing
}

/// The device a session is about, where it has one.
pub open spec fn session_device(state: PeerState) -> Option<Seq<char>> {
    match state {
        PeerState::AwaitingKey { device_id, .. } => Some(device_id@),
        PeerState::AwaitingAck { device_id, .. } => Some(device_id@),
        PeerState::AwaitingHistoryMark { device_id } => Some(device_id@),
        PeerState::Syncing { device_id } => Some(device_id@),
        _ => None,
    }
}

/// An acknowledgement that proves the peer holds its key: hex of a
/// 64-byte signature that the stored key accepts over our challenge.
pub open spec fn accepted_ack(state: PeerState, input: PeerInput) -> bool {
    &&& state matches PeerState::AwaitingAck { peer_key, local_challenge, .. }
    &&& input matches PeerInput::Received(PeerMessage::HandshakeAck { signature_hex })
    &&& hex_decode(encode_utf8(signature_hex@)) matches Some(signature)
    &&& signature.len() == 64
    &&& signature_valid(peer_key@, auth_message(local_challenge@), signature)
}

/// The session ends: closed, with the given action.
pub open spec fn ends(next: PeerState, action: PeerAction, outcome: PeerAction) -> bool {
    next is Closed && action == outcome
}

/// One step of a peer session: from `state`, on `input`, with `nonce` as
/// the random bytes of our challenge and `secret` as our identity, the
/// session moves to `next` and asks for `action`.
pub open spec fn peer_step(
    state: PeerState,
    input: PeerInput,
    nonce: Seq<u8>,
    secret: Seq<u8>,
    next: PeerState,
    action: PeerAction,
) -> bool {
    match state {
        PeerState::AwaitingInit => match input {
            PeerInput::Received(PeerMessage::HandshakeInit { device_id, challenge_hex }) => {
                &&& next == PeerState::AwaitingKey { device_id, peer_challenge: challenge_hex }
                &&& action == PeerAction::LookupDevice(device_id)
            },
            PeerInput::Received(_) => ends(next, action, PeerAction::Finish),
            PeerInput::Disconnected => ends(next, action, PeerAction::Finish),
            PeerInput::Unreadable => ends(next, action, PeerAction::Fail(PeerError::MalformedMessage)),
            _ => ends(next, action, PeerAction::Fail(PeerError::OutOfOrder)),
        },
        PeerState::AwaitingKey { device_id, peer_challenge } => match input {
            PeerInput::StoredKey(Some(key)) => if key@.len() == 32 {
                &&& next matches PeerState::AwaitingAck { device_id: d, peer_key, local_challenge }
                &&& d == device_id
                &&& peer_key@ == key@
                &&& local_challenge@ == hex_encode(nonce)
                &&& action matches PeerAction::Send(PeerMessage::HandshakeResponse { signature_hex, challenge_hex })
                &&& signature_hex@ == hex_encode(ed25519_signature_of(secret, auth_message(peer_challenge@)))
                &&& challenge_hex@ == hex_encode(nonce)
            } else {
                ends(next, action, PeerAction::Finish)
            },
            PeerInput::StoredKey(None) => ends(next, action, PeerAction::Finish),
            _ => ends(next, action, PeerAction::Fail(PeerError::OutOfOrder)),
        },
        PeerState::AwaitingAck { device_id, peer_key, local_challenge } => match input {
            PeerInput::Received(PeerMessage::HandshakeAck { signature_hex }) => match hex_decode(
                encode_utf8(signature_hex@),
            ) {
                None => ends(next, action, PeerAction::Fail(PeerError::MalformedSignature)),
                Some(signature) => if signature.len() == 64 && signature_valid(
                    peer_key@,
                    auth_message(local_challenge@),
                    signature,
                ) {
                    &&& next == PeerState::AwaitingHistoryMark { device_id }
                    &&& action == PeerAction::QueryLastTimestamp(device_id)
                } else {
                    ends(next, action, PeerAction::Finish)
                },
            },
            PeerInput::Received(_) => ends(next, action, PeerAction::Finish),
            PeerInput::Disconnected => ends(next, action, PeerAction::Finish),
            PeerInput::Unreadable => ends(next, action, PeerAction::Fail(PeerError::MalformedMessage)),
            _ => ends(next, action, PeerAction::Fail(PeerError::OutOfOrder)),
        },
        PeerState::AwaitingHistoryMark { device_id } => match input {
            PeerInput::LastTimestamp(mark) => {
                &&& next == PeerState::Syncing { device_id }
                &&& action == PeerAction::Send(
                    PeerMessage::SyncRequest {
                        last_timestamp: match mark {
                            Some(t) => t,
                            None => 0,
                        },
                    },
                )
            },
            _ => ends(next, action, PeerAction::Fail(PeerError::OutOfOrder)),
        },
        PeerState::Syncing { device_id } => match input {
            PeerInput::Received(PeerMessage::SyncRequest { last_timestamp }) => {
                &&& next == PeerState::Syncing { device_id }
                &&& action == PeerAction::QueryHistorySince(last_timestamp)
            },
            PeerInput::Received(PeerMessage::SyncData { visits }) => {
                &&& next == PeerState::Syncing { device_id }
                &&& action == PeerAction::StoreVisits(visits)
            },
            PeerInput::History(rows) => {
                &&& next == PeerState::Syncing { device_id }
                &&& action == PeerAction::Reply(PeerMessage::SyncData { visits: rows })
            },
            PeerInput::Received(_) => next == PeerState::Syncing { device_id } && action
                == PeerAction::Receive,
            PeerInput::Unreadable => next == PeerState::Syncing { device_id } && action
                == PeerAction::Receive,
            PeerInput::Disconnected => ends(next, action, PeerAction::Finish),
            _ => ends(next, action, PeerAction::Fail(PeerError::OutOfOrder)),
        },
        PeerState::Closed => ends(next, action, PeerAction::Finish),
    }
}


/// One step of a peer session with the given challenge nonce (see
/// [`peer_step`]). A handshake response carries our signature over the
/// peer's challenge, which our own public key accepts.
pub fn advance_with_nonce(state: PeerState, input: PeerInput, nonce: &[u8; 16], identity: &Identity) -> (r: (PeerState, PeerAction))
    ensures
        peer_step(state, input, nonce@, identity@, r.0, r.1),
        state matches PeerState::AwaitingKey { peer_challenge, .. } ==> (r.1 is Send ==> ed25519_accepts(
            ed25519_public_key_of(identity@),
            auth_message(peer_challenge@),
            ed25519_signature_of(identity@, auth_message(peer_challenge@)),
        )),
{
    match state {
        PeerState::AwaitingInit => match input {
            PeerInput::Received(PeerMessage::HandshakeInit { device_id, challenge_hex }) => {
                let lookup = device_id.clone();
                (PeerState::AwaitingKey { device_id, peer_challenge: challenge_hex }, PeerAction::LookupDevice(lookup))
            },
            PeerInput::Received(_) => (PeerState::Closed, PeerAction::Finish),
            PeerInput::Disconnected => (PeerState::Closed, PeerAction::Finish),
            PeerInput::Unreadable => (PeerState::Closed, PeerAction::Fail(PeerError::MalformedMessage)),
            _ => (PeerState::Closed, PeerAction::Fail(PeerError::OutOfOrder)),
        },
        PeerState::AwaitingKey { device_id, peer_challenge } => match input {
            PeerInput::StoredKey(Some(key)) => {
                if key.len() != 32 {
                    return (PeerState::Closed, PeerAction::Finish);
                }
                let peer_key: [u8; 32] = to_array(key.as_slice());
                let local_challenge = encode_bytes(nonce.as_slice());
                let message = challenge_message(peer_challenge.as_str());
                let signature = identity.sign(message.as_str().as_bytes());
                let response = PeerMessage::HandshakeResponse {
                    signature_hex: encode_bytes(signature.as_slice()),
                    challenge_hex: local_challenge.clone(),
                };
                (PeerState::AwaitingAck { device_id, peer_key, local_challenge }, PeerAction::Send(response))
            },
            PeerInput::StoredKey(None) => (PeerState::Closed, PeerAction::Finish),
            _ => (PeerState::Closed, PeerAction::Fail(PeerError::OutOfOrder)),
        },
        PeerState::AwaitingAck { device_id, peer_key, local_challenge } => match input {
            PeerInput::Received(PeerMessage::HandshakeAck { signature_hex }) => {
                let signature = match decode_hex(signature_hex.as_str()) {
                    Ok(bytes) => bytes,
                    Err(_) => return (PeerState::Closed, PeerAction::Fail(PeerError::MalformedSignature)),
                };
                if signature.len() != 64 {
                    return (PeerState::Closed, PeerAction::Finish);
                }
                let signature_arr: [u8; 64] = to_array(signature.as_slice());
                let message = challenge_message(local_challenge.as_str());
                if verify_signature(&peer_key, message.as_str().as_bytes(), &signature_arr) {
                    let query = device_id.clone();
                    (PeerState::AwaitingHistoryMark { device_id }, PeerAction::QueryLastTimestamp(query))
                } else {
                    (PeerState::Closed, PeerAction::Finish)
                }
            },
            PeerInput::Received(_) => (PeerState::Closed, PeerAction::Finish),
            PeerInput::Disconnected => (PeerState::Closed, PeerAction::Finish),
            PeerInput::Unreadable => (PeerState::Closed, PeerAction::Fail(PeerError::MalformedMessage)),
            _ => (PeerState::Closed, PeerAction::Fail(PeerError::OutOfOrder)),
        },
        PeerState::AwaitingHistoryMark { device_id } => match input {
            PeerInput::LastTimestamp(mark) => {
                let last_timestamp = match mark {
                    Some(t) => t,
                    None => 0,
                };
                (PeerState::Syncing { device_id }, PeerAction::Send(PeerMessage::SyncRequest { last_timestamp }))
            },
            _ => (PeerState::Closed, PeerAction::Fail(PeerError::OutOfOrder)),
        },
        PeerState::Syncing { device_id } => match input {
            PeerInput::Received(PeerMessage::SyncRequest { last_timestamp }) => {
                (PeerState::Syncing { device_id }, PeerAction::QueryHistorySince(last_timestamp))
            },
            PeerInput::Received(PeerMessage::SyncData { visits }) => {
                (PeerState::Syncing { device_id }, PeerAction::StoreVisits(visits))
            },
            PeerInput::History(rows) => {
                (PeerState::Syncing { device_id }, PeerAction::Reply(PeerMessage::SyncData { visits: rows }))
            },
            PeerInput::Received(_) => (PeerState::Syncing { device_id }, PeerAction::Receive),
            PeerInput::Unreadable => (PeerState::Syncing { device_id }, PeerAction::Receive),
            PeerInput::Disconnected => (PeerState::Closed, PeerAction::Finish),
            _ => (PeerState::Closed, PeerAction::Fail(PeerError::OutOfOrder)),
        },
        PeerState::Closed => (PeerState::Closed, PeerAction::Finish),
    }
}

/// One step of a peer session; a fresh random nonce becomes our challenge
/// when the peer's stored key arrives.
pub fn advance(state: PeerState, input: PeerInput, identity: &Identity) -> (r: (PeerState, PeerAction))
    ensures
        exists|nonce: Seq<u8>| nonce.len() == 16 && #[trigger] peer_step(state, input, nonce, identity@, r.0, r.1),
{
    let fresh = match (&state, &input) {
        (PeerState::AwaitingKey { .. }, PeerInput::StoredKey(_)) => true,
        _ => false,
    };
    let nonce: [u8; 16] = if fresh {
        random_nonce()
    } else {
        [0u8; 16]
    };
    let ghost n = nonce@;
    let r = advance_with_nonce(state, input, &nonce, identity);
    assert(peer_step(state, input, n, identity@, r.0, r.1));
    r
}

/// A session becomes authenticated only through an acknowledgement that
/// the stored key accepts over our challenge, and stays with its device.
pub proof fn lemma_step_authenticates_only_on_valid_ack(
    state: PeerState,
    input: PeerInput,
    nonce: Seq<u8>,
    secret: Seq<u8>,
    next: PeerState,
    action: PeerAction,
)
    requires
        peer_step(state, input, nonce, secret, next, action),
        authenticated(next),
    ensures
        authenticated(state) || accepted_ack(state, input),
        session_device(next) == session_device(state),
{
}

/// An acknowledgement that the stored key accepts over our challenge
/// authenticates the peer's device and asks for its newest timestamp.
pub proof fn lemma_valid_ack_authenticates(
    state: PeerState,
    input: PeerInput,
    nonce: Seq<u8>,
    secret: Seq<u8>,
    next: PeerState,
    action: PeerAction,
)
    requires
        peer_step(state, input, nonce, secret, next, action),
        accepted_ack(state, input),
    ensures
        next is AwaitingHistoryMark,
        session_device(next) == session_device(state),
        action matches PeerAction::QueryLastTimestamp(d) && Some(d@) == session_device(state),
{
}

/// A run of a peer session: `states[k + 1]` and `actions[k]` follow from
/// `states[k]` on `inputs[k]` with nonce `nonces[k]`.
pub open spec fn peer_run(
    states: Seq<PeerState>,
    inputs: Seq<PeerInput>,
    nonces: Seq<Seq<u8>>,
    actions: Seq<PeerAction>,
    secret: Seq<u8>,
) -> bool {
    &&& states.len() == inputs.len() + 1
    &&& nonces.len() == inputs.len()
    &&& actions.len() == inputs.len()
    &&& forall|k: int|
        0 <= k < inputs.len() ==> peer_step(
            #[trigger] states[k],
            inputs[k],
            nonces[k],
            secret,
            states[k + 1],
            actions[k],
        )
}

/// The key a session checks the acknowledgement against is the one stored
/// for the device it looked up: `ack_state` follows `prev` on `input`, the
/// stored key of the same device.
pub open spec fn key_from_lookup(prev: PeerState, input: PeerInput, ack_state: PeerState) -> bool {
    &&& prev matches PeerState::AwaitingKey { device_id, .. }
    &&& input matches PeerInput::StoredKey(Some(key))
    &&& ack_state matches PeerState::AwaitingAck { device_id: d, peer_key, .. }
    &&& d@ == device_id@
    &&& peer_key@ == key@
}

/// A session waits for an acknowledgement only right after receiving the
/// stored key of the device it looked up.
pub proof fn lemma_ack_state_follows_lookup(
    state: PeerState,
    input: PeerInput,
    nonce: Seq<u8>,
    secret: Seq<u8>,
    next: PeerState,
    action: PeerAction,
)
    requires
        peer_step(state, input, nonce, secret, next, action),
        next is AwaitingAck,
    ensures
        key_from_lookup(state, input, next),
{
}

/// In every run that starts waiting for the peer's `HandshakeInit`, a
/// session that is authenticated got there through an acknowledgement that
/// the key stored for the same device accepts over our challenge.
pub proof fn lemma_run_authenticates_only_on_valid_ack(
    states: Seq<PeerState>,
    inputs: Seq<PeerInput>,
    nonces: Seq<Seq<u8>>,
    actions: Seq<PeerAction>,
    secret: Seq<u8>,
    m: int,
)
    requires
        peer_run(states, inputs, nonces, actions, secret),
        states[0] is AwaitingInit,
        0 <= m < states.len(),
        authenticated(states[m]),
    ensures
        exists|k: int|
            0 < k < m && #[trigger] accepted_ack(states[k], inputs[k]) && session_device(states[k])
                == session_device(states[m]) && key_from_lookup(states[k - 1], inputs[k - 1], states[k]),
    decreases m,
{
    let k = m - 1;
    assert(peer_step(states[k], inputs[k], nonces[k], secret, states[k + 1], actions[k]));
    lemma_step_authenticates_only_on_valid_ack(states[k], inputs[k], nonces[k], secret, states[m], actions[k]);
    if !accepted_ack(states[k], inputs[k]) {
        lemma_run_authenticates_only_on_valid_ack(states, inputs, nonces, actions, secret, k);
        let j = choose|j: int|
            0 < j < k && #[trigger] accepted_ack(states[j], inputs[j]) && session_device(states[j])
                == session_device(states[k]) && key_from_lookup(states[j - 1], inputs[j - 1], states[j]);
        assert(accepted_ack(states[j], inputs[j]));
    } else {
        assert(k > 0);
        let h = k - 1;
        assert(peer_step(states[h], inputs[h], nonces[h], secret, states[h + 1], actions[h]));
        lemma_ack_state_follows_lookup(states[h], inputs[h], nonces[h], secret, states[k], actions[h]);
    }
}

/// Once authenticated, every sync request is served: whatever timestamp
/// `t` the peer asks from (0 for a peer that holds nothing from us yet),
/// the session stays syncing with the same device and fetches our history
/// newer than `t`.
pub proof fn lemma_sync_request_served(
    device_id: String,
    t: i64,
    nonce: Seq<u8>,
    secret: Seq<u8>,
    next: PeerState,
    action: PeerAction,
)
    requires
        peer_step(
            PeerState::Syncing { device_id },
            PeerInput::Received(PeerMessage::SyncRequest { last_timestamp: t }),
            nonce,
            secret,
            next,
            action,
        ),
    ensures
        next == (PeerState::Syncing { device_id }),
        action == PeerAction::QueryHistorySince(t),
        !(action is Receive),
{
}

/// Once authenticated, the rows fetched for a request are all sent back
/// as `SyncData`, and every `SyncData` received is stored in full.
pub proof fn lemma_history_exchanged(
    device_id: String,
    rows: Vec<HistoryItem>,
    nonce: Seq<u8>,
    secret: Seq<u8>,
    next_reply: PeerState,
    reply: PeerAction,
    next_store: PeerState,
    store: PeerAction,
)
    requires
        peer_step(PeerState::Syncing { device_id }, PeerInput::History(rows), nonce, secret, next_reply, reply),
        peer_step(
            PeerState::Syncing { device_id },
            PeerInput::Received(PeerMessage::SyncData { visits: rows }),
            nonce,
            secret,
            next_store,
            store,
        ),
    ensures
        next_reply == (PeerState::Syncing { device_id }),
        reply == PeerAction::Reply(PeerMessage::SyncData { visits: rows }),
        next_store == (PeerState::Syncing { device_id }),
        store == PeerAction::StoreVisits(rows),
{
}

} // verus!
