//! Device pairing: the daemon hands out one-time challenges that expire
//! after five minutes, and pairs a device that returns a challenge signed
//! with its Ed25519 key.

use vstd::prelude::*;
use crate::crypto::{
    auth_message, challenge_message, ed25519_public_key_of, random_nonce, signature_valid,
    to_array, verify_signature, Identity,
};
use crate::hexcodec::{decode_hex, encode_bytes, hex_decode, hex_encode, lemma_hex_roundtrip};
use vstd::string::StringSliceAdditionalSpecFns;
use vstd::utf8::encode_utf8;

verus! {

/// How long a challenge stays pending, in nanoseconds (five minutes).
pub const CHALLENGE_LIFETIME_NANOS: u64 = 300_000_000_000;

/// Whether a challenge issued at `issued` (nanoseconds on a monotonic
/// clock) is still pending at `now`: less than five whole minutes have
/// passed, a clock that reads earlier counting as no time at all.
pub open spec fn challenge_live(issued: u64, now: u64) -> bool {
    now - issued < CHALLENGE_LIFETIME_NANOS
}

/// The pending challenges that survive a clean-up at `now`.
pub open spec fn prune_spec(pending: Map<Seq<char>, u64>, now: u64) -> Map<Seq<char>, u64> {
    Map::new(|k: Seq<char>| pending.contains_key(k) && challenge_live(pending[k], now), |k: Seq<char>| pending[k])
}

/// Each challenge occurs once in `entries`, and `contents` maps exactly the
/// challenges there to their issue times.
spec fn store_consistent(entries: Seq<(String, u64)>, contents: Map<Seq<char>, u64>) -> bool {
    &&& forall|i: int, j: int|
        0 <= i < j < entries.len() ==> #[trigger] entries[i].0@ != #[trigger] entries[j].0@
    &&& forall|i: int|
        0 <= i < entries.len() ==> contents.contains_key(#[trigger] entries[i].0@)
            && contents[entries[i].0@] == entries[i].1
    &&& forall|k: Seq<char>|
        #[trigger] contents.contains_key(k) ==> exists|i: int|
            0 <= i < entries.len() && #[trigger] entries[i].0@ == k
}

/// The pending challenges and the time each was issued.
pub struct ChallengeStore {
    entries: Vec<(String, u64)>,
    contents: Ghost<Map<Seq<char>, u64>>,
}

impl View for ChallengeStore {
    type V = Map<Seq<char>, u64>;

    closed spec fn view(&self) -> Map<Seq<char>, u64> {
        self.contents@
    }
}

impl ChallengeStore {
    /// Each challenge occurs once, and the map view is what the entries hold.
    pub closed spec fn wf(&self) -> bool {
        store_consistent(self.entries@, self.contents@)
    }

    /// No challenge is pending.
    pub fn new() -> (s: ChallengeStore)
        ensures
            s.wf(),
            s@ == Map::<Seq<char>, u64>::empty(),
    {
        ChallengeStore { entries: Vec::new(), contents: Ghost(Map::empty()) }
    }

    /// The number of pending challenges.
    pub fn len(&self) -> (n: usize)
        requires
            self.wf(),
        ensures
            n == self@.len(),
    {
        proof {
            self.lemma_len();
        }
        self.entries.len()
    }

    proof fn lemma_len(&self)
        requires
            self.wf(),
        ensures
            self.contents@.dom().finite(),
            self.contents@.len() == self.entries@.len(),
        decreases self.entries@.len(),
    {
        let keys = self.entries@.map_values(|e: (String, u64)| e.0@);
        assert forall|i: int, j: int| 0 <= i < j < keys.len() implies keys[i] != keys[j] by {
            assert(self.entries@[i].0@ != self.entries@[j].0@);
        }
        assert(keys.no_duplicates());
        assert(self.contents@.dom() =~= keys.to_set()) by {
            assert forall|k: Seq<char>| self.contents@.dom().contains(k) implies keys.to_set().contains(k) by {
                let i = choose|i: int| 0 <= i < self.entries@.len() && self.entries@[i].0@ == k;
                assert(keys[i] == k);
            }
            assert forall|k: Seq<char>| keys.to_set().contains(k) implies self.contents@.dom().contains(k) by {
                let i = choose|i: int| 0 <= i < keys.len() && keys[i] == k;
                assert(self.entries@[i].0@ == k);
            }
        }
        keys.unique_seq_to_set();
    }

    /// When `challenge` was issued, if it is pending.
    pub fn issued_at(&self, challenge: &String) -> (r: Option<u64>)
        requires
            self.wf(),
        ensures
            match r {
                Some(t) => self@.contains_key(challenge@) && self@[challenge@] == t,
                None => !self@.contains_key(challenge@),
            },
    {
        match self.position(challenge) {
            Some(i) => Some(self.entries[i].1),
            None => None,
        }
    }

    /// Drops every challenge that is five minutes old or older at `now`.
    pub fn prune(&mut self, now: u64)
        requires
            old(self).wf(),
        ensures
            final(self).wf(),
            final(self)@ == prune_spec(old(self)@, now),
    {
        let ghost before = self.contents@;
        let mut kept: Vec<(String, u64)> = Vec::new();
        let ghost mut kept_map: Map<Seq<char>, u64> = Map::empty();
        let mut i: usize = 0;
        while i < self.entries.len()
            invariant
                self.wf(),
                self.contents@ == before,
                0 <= i <= self.entries@.len(),
                forall|a: int, b: int|
                    0 <= a < b < kept@.len() ==> #[trigger] kept@[a].0@ != #[trigger] kept@[b].0@,
                forall|a: int|
                    0 <= a < kept@.len() ==> kept_map.contains_key(#[trigger] kept@[a].0@)
                        && kept_map[kept@[a].0@] == kept@[a].1,
                forall|k: Seq<char>|
                    #[trigger] kept_map.contains_key(k) ==> exists|a: int|
                        0 <= a < kept@.len() && #[trigger] kept@[a].0@ == k,
                forall|k: Seq<char>|
                    #[trigger] kept_map.contains_key(k) <==> (exists|j: int|
                        0 <= j < i && #[trigger] self.entries@[j].0@ == k) && before.contains_key(k)
                        && challenge_live(before[k], now),
                forall|k: Seq<char>| #[trigger] kept_map.contains_key(k) ==> kept_map[k] == before[k],
            decreases self.entries@.len() - i,
        {
            let issued = self.entries[i].1;
            if now < issued || now - issued < CHALLENGE_LIFETIME_NANOS {
                let key = self.entries[i].0.clone();
                proof {
                    assert(!kept_map.contains_key(key@)) by {
                        if kept_map.contains_key(key@) {
                            let j = choose|j: int| 0 <= j < i && #[trigger] self.entries@[j].0@ == key@;
                            assert(self.entries@[j].0@ != self.entries@[i as int].0@);
                        }
                    }
                    assert forall|a: int| 0 <= a < kept@.len() implies kept@[a].0@ != key@ by {
                        assert(kept_map.contains_key(kept@[a].0@));
                    }
                    kept_map = kept_map.insert(key@, issued);
                }
                let ghost old_kept = kept@;
                kept.push((key, issued));
                proof {
                    assert forall|k: Seq<char>| #[trigger] kept_map.contains_key(k) implies exists|a: int|
                        0 <= a < kept@.len() && #[trigger] kept@[a].0@ == k by {
                        if k == key@ {
                            assert(kept@[kept@.len() - 1].0@ == k);
                        } else {
                            let a = choose|a: int| 0 <= a < old_kept.len() && #[trigger] old_kept[a].0@ == k;
                            assert(kept@[a] == old_kept[a]);
                        }
                    }
                }
            }
            i = i + 1;
        }
        proof {
            assert(kept_map =~= prune_spec(before, now));
        }
        assert(store_consistent(kept@, kept_map));
        *self = ChallengeStore { entries: kept, contents: Ghost(kept_map) };
    }

    /// Records `challenge` as issued at `now`; a pending challenge of the
    /// same text is overwritten.
    pub fn insert(&mut self, challenge: String, now: u64)
        requires
            old(self).wf(),
        ensures
            final(self).wf(),
            final(self)@ == old(self)@.insert(challenge@, now),
    {
        self.remove(&challenge);
        let ghost before = self.contents@;
        let ghost key = challenge@;
        let ghost old_entries = self.entries@;
        assert(!before.contains_key(key));
        self.entries.push((challenge, now));
        let ghost after = before.insert(key, now);
        proof {
            let entries = self.entries@;
            assert forall|a: int| 0 <= a < entries.len() implies after.contains_key(
                #[trigger] entries[a].0@,
            ) && after[entries[a].0@] == entries[a].1 by {
                if a < old_entries.len() {
                    assert(entries[a] == old_entries[a]);
                    assert(before.contains_key(old_entries[a].0@));
                }
            }
            assert forall|k: Seq<char>| #[trigger] after.contains_key(k) implies exists|i: int|
                0 <= i < entries.len() && #[trigger] entries[i].0@ == k by {
                if k != key {
                    let i = choose|i: int| 0 <= i < old_entries.len() && #[trigger] old_entries[i].0@ == k;
                    assert(entries[i] == old_entries[i]);
                } else {
                    assert(entries[entries.len() - 1].0@ == k);
                }
            }
            assert forall|a: int, b: int| 0 <= a < b < entries.len() implies #[trigger] entries[a].0@
                != #[trigger] entries[b].0@ by {
                assert(entries[a] == old_entries[a]);
                if b == entries.len() - 1 {
                    assert(before.contains_key(old_entries[a].0@));
                } else {
                    assert(entries[b] == old_entries[b]);
                }
            }
        }
        assert(store_consistent(self.entries@, after));
        self.contents = Ghost(after);
    }

    /// The position of `challenge` among the entries, if it is pending.
    fn position(&self, challenge: &String) -> (r: Option<usize>)
        requires
            self.wf(),
        ensures
            match r {
                Some(i) => i < self.entries@.len() && self.entries@[i as int].0@ == challenge@,
                None => !self@.contains_key(challenge@),
            },
    {
        let mut i: usize = 0;
        while i < self.entries.len()
            invariant
                self.wf(),
                0 <= i <= self.entries@.len(),
                forall|j: int| 0 <= j < i ==> self.entries@[j].0@ != challenge@,
            decreases self.entries@.len() - i,
        {
            if self.entries[i].0 == *challenge {
                return Some(i);
            }
            i = i + 1;
        }
        proof {
            if self.contents@.contains_key(challenge@) {
                let j = choose|j: int| 0 <= j < self.entries@.len() && #[trigger] self.entries@[j].0@ == challenge@;
            }
        }
        None
    }

    /// Withdraws `challenge`; returns whether it was pending.
    pub fn remove(&mut self, challenge: &String) -> (found: bool)
        requires
            old(self).wf(),
        ensures
            final(self).wf(),
            found == old(self)@.contains_key(challenge@),
            final(self)@ == old(self)@.remove(challenge@),
    {
        match self.position(challenge) {
            None => {
                assert(self.contents@.remove(challenge@) =~= self.contents@);
                false
            },
            Some(i) => {
                let ghost before = self.contents@;
                let ghost old_entries = self.entries@;
                assert(before.contains_key(challenge@));
                self.entries.remove(i);
                let ghost after = before.remove(challenge@);
                proof {
                    let entries = self.entries@;
                    assert forall|a: int, b: int| 0 <= a < b < entries.len() implies #[trigger] entries[a].0@
                        != #[trigger] entries[b].0@ by {
                        let a0 = if a < i { a } else { a + 1 };
                        let b0 = if b < i { b } else { b + 1 };
                        assert(entries[a] == old_entries[a0]);
                        assert(entries[b] == old_entries[b0]);
                    }
                    assert forall|a: int| 0 <= a < entries.len() implies after.contains_key(
                        #[trigger] entries[a].0@,
                    ) && after[entries[a].0@] == entries[a].1 by {
                        let a0 = if a < i { a } else { a + 1 };
                        assert(entries[a] == old_entries[a0]);
                        assert(old_entries[a0].0@ != old_entries[i as int].0@);
                    }
                    assert forall|k: Seq<char>| #[trigger] after.contains_key(k) implies exists|a: int|
                        0 <= a < entries.len() && #[trigger] entries[a].0@ == k by {
                        let j = choose|j: int| 0 <= j < old_entries.len() && #[trigger] old_entries[j].0@ == k;
                        assert(j != i);
                        let a = if j < i { j } else { j - 1 };
                        assert(entries[a] == old_entries[j]);
                    }
                }
                assert(store_consistent(self.entries@, after));
                self.contents = Ghost(after);
                true
            },
        }
    }
}

/// Hands out a challenge made from `nonce`: its lowercase hex text, pending
/// from `now` on, after expired challenges are dropped.
pub fn issue_challenge_with_nonce(pending: &mut ChallengeStore, nonce: &[u8; 16], now: u64) -> (challenge: String)
    requires
        old(pending).wf(),
    ensures
        final(pending).wf(),
        challenge@ == hex_encode(nonce@),
        final(pending)@ == prune_spec(old(pending)@, now).insert(challenge@, now),
{
    let challenge = encode_bytes(nonce.as_slice());
    pending.prune(now);
    pending.insert(challenge.clone(), now);
    challenge
}

/// Hands out a fresh random challenge, pending from `now` on, after expired
/// challenges are dropped.
pub fn issue_challenge(pending: &mut ChallengeStore, now: u64) -> (challenge: String)
    requires
        old(pending).wf(),
    ensures
        final(pending).wf(),
        exists|nonce: Seq<u8>| nonce.len() == 16 && challenge@ == #[trigger] hex_encode(nonce),
        final(pending)@ == prune_spec(old(pending)@, now).insert(challenge@, now),
{
    let nonce = random_nonce();
    let challenge = issue_challenge_with_nonce(pending, &nonce, now);
    assert(challenge@ == hex_encode(nonce@));
    challenge
}

/// What a device sends to be paired: who it is, its public key, and the
/// challenge it was given, signed, all keys and signatures in hex.
pub struct PairRequest {
    pub device_id: String,
    pub device_name: String,
    pub public_key_hex: String,
    pub challenge_hex: String,
    pub signature_hex: String,
}

/// A device that proved it holds its key: what is stored for it, and the
/// daemon's own public key in hex for the reply.
pub struct PairedDevice {
    pub device_id: String,
    pub device_name: String,
    pub public_key: Vec<u8>,
    pub daemon_public_key_hex: String,
}

/// Why a pairing request is refused.
#[derive(Debug, Clone, Copy, PartialEq, Eq, Structural)]
pub enum PairError {
    /// The challenge is not pending (never issued, expired, or used).
    UnknownChallenge,
    /// The key or signature is no hex, or has the wrong length.
    Malformed,
    /// The signature does not verify under the key.
    BadSignature,
}

impl PairError {
    /// The HTTP status the daemon answers with.
    pub fn status_code(&self) -> (code: u16)
        ensures
            code == (match *self {
                PairError::BadSignature => 401u16,
                _ => 400u16,
            }),
    {
        match self {
            PairError::BadSignature => 401,
            _ => 400,
        }
    }
}

/// The key and signature of a request, where both are hex of the right
/// lengths (32 and 64 bytes).
pub open spec fn pair_credentials(key_hex: Seq<char>, signature_hex: Seq<char>) -> Option<(Seq<u8>, Seq<u8>)> {
    match (hex_decode(encode_utf8(key_hex)), hex_decode(encode_utf8(signature_hex))) {
        (Some(key), Some(signature)) => if key.len() == 32 && signature.len() == 64 {
            Some((key, signature))
        } else {
            None
        },
        _ => None,
    }
}

/// The outcome of a pairing request against the pending challenges: the
/// device's public key, or why it is refused.
pub open spec fn pair_outcome(pending: Map<Seq<char>, u64>, req: PairRequest) -> Result<Seq<u8>, PairError> {
    if !pending.contains_key(req.challenge_hex@) {
        Err(PairError::UnknownChallenge)
    } else {
        match pair_credentials(req.public_key_hex@, req.signature_hex@) {
            None => Err(PairError::Malformed),
            Some((key, signature)) => if signature_valid(key, auth_message(req.challenge_hex@), signature) {
                Ok(key)
            } else {
                Err(PairError::BadSignature)
            },
        }
    }
}

/// Answers a pairing request: the challenge is withdrawn whatever the
/// outcome, and the device is paired when its key signed the challenge.
pub fn pair_response(pending: &mut ChallengeStore, identity: &Identity, req: &PairRequest) -> (r: Result<PairedDevice, PairError>)
    requires
        old(pending).wf(),
    ensures
        final(pending).wf(),
        final(pending)@ == old(pending)@.remove(req.challenge_hex@),
        match r {
            Ok(device) => {
                &&& pair_outcome(old(pending)@, *req) == Ok::<Seq<u8>, PairError>(device.public_key@)
                &&& device.device_id@ == req.device_id@
                &&& device.device_name@ == req.device_name@
                &&& device.daemon_public_key_hex@ == hex_encode(ed25519_public_key_of(identity@))
            },
            Err(e) => pair_outcome(old(pending)@, *req) == Err::<Seq<u8>, PairError>(e),
        },
{
    if !pending.remove(&req.challenge_hex) {
        return Err(PairError::UnknownChallenge);
    }
    let key = match decode_hex(req.public_key_hex.as_str()) {
        Ok(bytes) => bytes,
        Err(_) => return Err(PairError::Malformed),
    };
    let signature = match decode_hex(req.signature_hex.as_str()) {
        Ok(bytes) => bytes,
        Err(_) => return Err(PairError::Malformed),
    };
    if key.len() != 32 || signature.len() != 64 {
        return Err(PairError::Malformed);
    }
    let key_arr: [u8; 32] = to_array(key.as_slice());
    let signature_arr: [u8; 64] = to_array(signature.as_slice());
    let message = challenge_message(req.challenge_hex.as_str());
    if !verify_signature(&key_arr, message.as_str().as_bytes(), &signature_arr) {
        return Err(PairError::BadSignature);
    }
    let daemon_key = identity.public_key();
    Ok(PairedDevice {
        device_id: req.device_id.clone(),
        device_name: req.device_name.clone(),
        public_key: key,
        daemon_public_key_hex: encode_bytes(daemon_key.as_slice()),
    })
}

/// A challenge answers one pairing request at most: once a request has
/// been answered, any request with the same challenge is refused.
pub proof fn lemma_challenge_single_use(pending: Map<Seq<char>, u64>, first: PairRequest, second: PairRequest)
    requires
        second.challenge_hex@ == first.challenge_hex@,
    ensures
        pair_outcome(pending.remove(first.challenge_hex@), second) == Err::<Seq<u8>, PairError>(PairError::UnknownChallenge),
{
}

/// A device that answers a pending challenge with its decodable public key
/// and a signature that key accepts over the challenge, both in hex, is
/// paired with that key.
pub proof fn lemma_signed_challenge_pairs(pending: Map<Seq<char>, u64>, req: PairRequest, key: Seq<u8>, signature: Seq<u8>)
    requires
        pending.contains_key(req.challenge_hex@),
        key.len() == 32,
        signature.len() == 64,
        req.public_key_hex@ == hex_encode(key),
        req.signature_hex@ == hex_encode(signature),
        signature_valid(key, auth_message(req.challenge_hex@), signature),
    ensures
        pair_outcome(pending, req) == Ok::<Seq<u8>, PairError>(key),
{
    lemma_hex_roundtrip(key);
    lemma_hex_roundtrip(signature);
}

/// A challenge issued at `now` is still pending at any time less than five
/// minutes later, unless something withdrew it.
pub proof fn lemma_issued_challenge_pending(pending: Map<Seq<char>, u64>, challenge: Seq<char>, issued: u64, later: u64)
    requires
        issued <= later,
        later - issued < CHALLENGE_LIFETIME_NANOS,
    ensures
        prune_spec(pending.insert(challenge, issued), later).contains_key(challenge),
        prune_spec(pending.insert(challenge, issued), later)[challenge] == issued,
{
}

/// Once a clean-up runs five minutes or more after a challenge was issued,
/// a request with that challenge is refused.
pub proof fn lemma_expired_challenge_refused(pending: Map<Seq<char>, u64>, req: PairRequest, now: u64)
    requires
        pending.contains_key(req.challenge_hex@),
        !challenge_live(pending[req.challenge_hex@], now),
    ensures
        pair_outcome(prune_spec(pending, now), req) == Err::<Seq<u8>, PairError>(PairError::UnknownChallenge),
{
}

} // verus!
