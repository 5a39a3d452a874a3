//! Ed25519 device identities: a 32-byte secret seed, its public key, and
//! signatures over challenge messages, with `ed25519_dalek` doing the
//! curve arithmetic.

use vstd::prelude::*;
use vstd::string::StringSliceAdditionalSpecFns;
use vstd::utf8::encode_utf8;
use ed25519_dalek::{Signer, Verifier};

verus! {

/// Whether 32 bytes are the compressed encoding of a curve point, so that
/// `ed25519_dalek::VerifyingKey::from_bytes` accepts them.
pub uninterp spec fn ed25519_key_decodes(public_key: Seq<u8>) -> bool;

/// Whether `ed25519_dalek` accepts `signature` over `message` under the
/// (decodable) public key.
pub uninterp spec fn ed25519_accepts(public_key: Seq<u8>, message: Seq<u8>, signature: Seq<u8>) -> bool;

/// The public key that `ed25519_dalek` derives from a 32-byte secret seed.
pub uninterp spec fn ed25519_public_key_of(secret: Seq<u8>) -> Seq<u8>;

/// The deterministic Ed25519 signature of `message` under a secret seed.
pub uninterp spec fn ed25519_signature_of(secret: Seq<u8>, message: Seq<u8>) -> Seq<u8>;

/// `ed25519_dalek::VerifyingKey::from_bytes`: the contract claims only
/// that it succeeds exactly on the bytes that the name calls decodable.
#[verifier::external_body]
fn key_decodes(public_key: &[u8; 32]) -> (r: bool)
    ensures
        r == ed25519_key_decodes(public_key@),
{
    ed25519_dalek::VerifyingKey::from_bytes(public_key).is_ok()
}

/// `Verifier::verify` of `ed25519_dalek::VerifyingKey`, with the key and
/// the signature taken from their byte forms (a key that decodes, so the
/// error arm is never taken); the contract names the outcome.
#[verifier::external_body]
fn signature_verifies(public_key: &[u8; 32], message: &[u8], signature: &[u8; 64]) -> (r: bool)
    requires
        ed25519_key_decodes(public_key@),
    ensures
        r == ed25519_accepts(public_key@, message@, signature@),
{
    match ed25519_dalek::VerifyingKey::from_bytes(public_key) {
        Ok(key) => key.verify(message, &ed25519_dalek::Signature::from_bytes(signature)).is_ok(),
        Err(_) => false,
    }
}

/// `SigningKey::verifying_key` of the key made from a secret seed, as
/// bytes. The contract claims the result is the named public key and, as
/// the compression of a curve point, decodes again.
#[verifier::external_body]
fn public_key_of(secret: &[u8; 32]) -> (r: [u8; 32])
    ensures
        r@ == ed25519_public_key_of(secret@),
        ed25519_key_decodes(r@),
{
    ed25519_dalek::SigningKey::from_bytes(secret).verifying_key().to_bytes()
}

/// `Signer::sign` of `ed25519_dalek::SigningKey`, as bytes. Ed25519 signing
/// is deterministic; the contract names the signature and claims the
/// scheme's correctness: the public key of the same seed accepts it.
#[verifier::external_body]
fn sign_bytes(secret: &[u8; 32], message: &[u8]) -> (r: [u8; 64])
    ensures
        r@ == ed25519_signature_of(secret@, message@),
        ed25519_accepts(ed25519_public_key_of(secret@), message@, r@),
{
    ed25519_dalek::SigningKey::from_bytes(secret).sign(message).to_bytes()
}

/// `SigningKey::generate` with the operating system's random source, as the
/// secret seed bytes. Nothing is claimed of the seed: it is random.
#[verifier::external_body]
fn random_secret() -> (r: [u8; 32]) {
    ed25519_dalek::SigningKey::generate(&mut rand::rngs::OsRng).to_bytes()
}

/// `rand::thread_rng` filling 16 bytes: a fresh random challenge nonce.
/// Nothing is claimed of the bytes: they are random.
#[verifier::external_body]
pub(crate) fn random_nonce() -> (r: [u8; 16]) {
    let mut nonce = [0u8; 16];
    rand::RngCore::fill_bytes(&mut rand::thread_rng(), &mut nonce);
    nonce
}

/// The bytes of a slice as a fixed-size array.
pub fn to_array<const N: usize>(bytes: &[u8]) -> (r: [u8; N])
    requires
        bytes@.len() == N,
    ensures
        r@ == bytes@,
{
    let mut out = [0u8; N];
    let mut i: usize = 0;
    while i < N
        invariant
            bytes@.len() == N,
            out@.len() == N,
            0 <= i <= N,
            forall|j: int| 0 <= j < i ==> out@[j] == bytes@[j],
        decreases N - i,
    {
        out[i] = bytes[i];
        i = i + 1;
    }
    assert(out@ =~= bytes@);
    out
}

/// Whether a public key, a message and a signature pass Ed25519
/// verification: the key must decode and the signature must verify.
pub open spec fn signature_valid(public_key: Seq<u8>, message: Seq<u8>, signature: Seq<u8>) -> bool {
    ed25519_key_decodes(public_key) && ed25519_accepts(public_key, message, signature)
}

/// Checks an Ed25519 signature given as raw bytes; a public key that is
/// no curve point is refused.
pub fn verify_signature(pubkey_bytes: &[u8; 32], message: &[u8], signature_bytes: &[u8; 64]) -> (r: bool)
    ensures
        r == signature_valid(pubkey_bytes@, message@, signature_bytes@),
{
    if key_decodes(pubkey_bytes) {
        signature_verifies(pubkey_bytes, message, signature_bytes)
    } else {
        false
    }
}

/// The text that both sides of a pairing or handshake sign: the challenge
/// behind a fixed protocol label.
pub open spec fn auth_text(challenge: Seq<char>) -> Seq<char> {
    "besynx-auth-v1:"@ + challenge
}

/// The bytes that are signed for a challenge: the UTF-8 of its auth text.
pub open spec fn auth_message(challenge: Seq<char>) -> Seq<u8> {
    encode_utf8(auth_text(challenge))
}

/// The message signed to answer `challenge`.
pub fn challenge_message(challenge: &str) -> (m: String)
    ensures
        m@ == auth_text(challenge@),
{
    let mut m = String::from_str("besynx-auth-v1:");
    m.append(challenge);
    m
}

/// A device identity: the 32-byte Ed25519 secret seed.
pub struct Identity {
    secret: [u8; 32],
}

impl View for Identity {
    type V = Seq<u8>;

    closed spec fn view(&self) -> Seq<u8> {
        self.secret@
    }
}

impl Identity {
    /// The identity with the given secret seed.
    pub fn from_bytes(secret: [u8; 32]) -> (id: Identity)
        ensures
            id@ == secret@,
            id@.len() == 32,
    {
        Identity { secret }
    }

    /// A fresh identity with a random secret seed.
    pub fn generate() -> (id: Identity)
        ensures
            id@.len() == 32,
    {
        Identity { secret: random_secret() }
    }

    /// The identity stored in a key file: its first 32 bytes are the seed;
    /// a shorter file cannot be read.
    pub fn from_key_file(contents: &[u8]) -> (r: Option<Identity>)
        ensures
            match r {
                Some(id) => contents@.len() >= 32 && id@ == contents@.subrange(0, 32),
                None => contents@.len() < 32,
            },
    {
        if contents.len() < 32 {
            return None;
        }
        let mut secret = [0u8; 32];
        let mut i: usize = 0;
        while i < 32
            invariant
                contents@.len() >= 32,
                0 <= i <= 32,
                forall|j: int| 0 <= j < i ==> secret@[j] == contents@[j],
            decreases 32 - i,
        {
            secret[i] = contents[i];
            i = i + 1;
        }
        assert(secret@ =~= contents@.subrange(0, 32));
        Some(Identity { secret })
    }

    /// The secret seed, as the key file holds it.
    pub fn to_bytes(&self) -> (r: [u8; 32])
        ensures
            r@ == self@,
    {
        self.secret
    }

    /// The Ed25519 public key of this identity.
    pub fn public_key(&self) -> (r: [u8; 32])
        ensures
            r@ == ed25519_public_key_of(self@),
            ed25519_key_decodes(r@),
    {
        public_key_of(&self.secret)
    }

    /// The Ed25519 signature of `message` by this identity.
    pub fn sign(&self, message: &[u8]) -> (r: [u8; 64])
        ensures
            r@ == ed25519_signature_of(self@, message@),
            ed25519_accepts(ed25519_public_key_of(self@), message@, r@),
    {
        sign_bytes(&self.secret, message)
    }
}

} // verus!
