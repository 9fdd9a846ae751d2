//! Secure channel: X25519 key agreement and ChaCha20-Poly1305 authenticated
//! encryption, as the protocol uses them. The primitives come from the
//! `fides` crate; what each call returns is stated here once, and everything
//! built on top is proved against those statements.

use vstd::prelude::*;

verus! {

/// The shared key that X25519 key agreement derives from one side's private
/// key and the other side's public key (result of `fides::x25519::shared_key`).
pub uninterp spec fn shared_key_of(private_key: Seq<u8>, public_key: Seq<u8>) -> Seq<u8>;

/// The public key belonging to a private key (result of
/// `fides::x25519::public_key`).
pub uninterp spec fn public_key_of(private_key: Seq<u8>) -> Seq<u8>;

/// What ChaCha20-Poly1305 decryption yields for a key and a ciphertext whose
/// first 12 bytes are the nonce (result of `fides::chacha20poly1305::decrypt`):
/// the plaintext, or `None` when the key is wrong or the ciphertext tampered.
pub uninterp spec fn aead_decrypt_of(key: Seq<u8>, ciphertext: Seq<u8>) -> Option<Seq<u8>>;

/// What decrypting a ciphertext under a key yields, for ciphertexts of any
/// length: one too short to carry the 12-byte nonce fails outright.
pub open spec fn decryption_of(key: Seq<u8>, ciphertext: Seq<u8>) -> Option<Seq<u8>> {
    if ciphertext.len() < 12 {
        None
    } else {
        aead_decrypt_of(key, ciphertext)
    }
}

/// Relies on fides::x25519::public_key: the public key is a deterministic
/// function of the 32-byte private key, itself 32 bytes.
#[verifier::external_body]
fn x25519_public(private_key: &Vec<u8>) -> (r: Vec<u8>)
    requires
        private_key@.len() == 32,
    ensures
        r@ == public_key_of(private_key@),
        r@.len() == 32,
{
    let key: [u8; 32] = private_key.as_slice().try_into().unwrap();
    fides::x25519::public_key(&key).to_vec()
}

/// Relies on fides::x25519::shared_key: X25519 Diffie-Hellman followed by a
/// hash of the shared point. Deterministic in its two arguments, 32 bytes,
/// and symmetric: when the peer's public key was derived from some private
/// key, both sides compute the same shared key (the Diffie-Hellman property
/// of the underlying curve).
#[verifier::external_body]
fn x25519_shared(private_key: &Vec<u8>, peer_public: &Vec<u8>) -> (r: Vec<u8>)
    requires
        private_key@.len() == 32,
        peer_public@.len() == 32,
    ensures
        r@ == shared_key_of(private_key@, peer_public@),
        r@.len() == 32,
        forall|other: Seq<u8>|
            peer_public@ == #[trigger] public_key_of(other) ==> r@ == shared_key_of(
                other,
                public_key_of(private_key@),
            ),
{
    let sk: [u8; 32] = private_key.as_slice().try_into().unwrap();
    let pk: [u8; 32] = peer_public.as_slice().try_into().unwrap();
    fides::x25519::shared_key(&sk, &pk).to_vec()
}

/// Largest plaintext the cipher encrypts: its 32-bit block counter covers
/// 2^32 - 1 blocks of 64 bytes each, and a longer input is refused.
pub const MAX_PLAINTEXT_LEN: u64 = 0x3fffffffc0;

/// Relies on fides::chacha20poly1305::encrypt: a fresh random nonce is drawn
/// and prepended, so the ciphertext is not a function of the arguments alone;
/// of every outcome it holds that decrypting it under the same key gives back
/// the plaintext that went in. The one failure the cipher has is a plaintext
/// past its block-counter bound; every shorter one encrypts.
#[verifier::external_body]
fn chacha_encrypt(key: &Vec<u8>, plaintext: &Vec<u8>) -> (r: Option<Vec<u8>>)
    requires
        key@.len() == 32,
    ensures
        plaintext@.len() < MAX_PLAINTEXT_LEN ==> r is Some,
        r is Some ==> r->Some_0@.len() >= 12,
        r is Some ==> aead_decrypt_of(key@, r->Some_0@) == Some(plaintext@),
{
    let k: [u8; 32] = key.as_slice().try_into().unwrap();
    match fides::chacha20poly1305::encrypt(&k, plaintext.as_slice()) {
        Ok(ciphertext) => Some(ciphertext),
        Err(_) => None,
    }
}

/// Relies on fides::chacha20poly1305::decrypt: deterministic in key and
/// ciphertext (the nonce is read from the ciphertext's first 12 bytes, hence
/// the length bound), and it fails rather than panics on a wrong key or a
/// tampered ciphertext.
#[verifier::external_body]
fn chacha_decrypt(key: &Vec<u8>, ciphertext: &Vec<u8>) -> (r: Option<Vec<u8>>)
    requires
        key@.len() == 32,
        ciphertext@.len() >= 12,
    ensures
        r is Some <==> aead_decrypt_of(key@, ciphertext@) is Some,
        r is Some ==> r->Some_0@ == aead_decrypt_of(key@, ciphertext@)->Some_0,
{
    let k: [u8; 32] = key.as_slice().try_into().unwrap();
    match fides::chacha20poly1305::decrypt(&k, ciphertext.as_slice()) {
        Ok(plaintext) => Some(plaintext),
        Err(_) => None,
    }
}

/// The public key matching a private key.
pub fn public_key_for(private_key: &Vec<u8>) -> (r: Vec<u8>)
    requires
        private_key@.len() == 32,
    ensures
        r@ == public_key_of(private_key@),
        r@.len() == 32,
{
    x25519_public(private_key)
}

/// Key agreement. Deterministic, and symmetric between the two sides: if
/// `peer_public` is the public key of some private key `other`, the result
/// equals what the peer derives from `other` and this node's public key.
pub fn derive_shared_key(private_key: &Vec<u8>, peer_public: &Vec<u8>) -> (r: Vec<u8>)
    requires
        private_key@.len() == 32,
        peer_public@.len() == 32,
    ensures
        r@ == shared_key_of(private_key@, peer_public@),
        r@.len() == 32,
        forall|other: Seq<u8>|
            peer_public@ == #[trigger] public_key_of(other) ==> r@ == shared_key_of(
                other,
                public_key_of(private_key@),
            ),
{
    x25519_shared(private_key, peer_public)
}

/// Authenticated encryption. Success is owed for every plaintext below the
/// cipher's block-counter bound — in practice, for all of them — and a
/// successful ciphertext decrypts back to the plaintext under the same key.
/// The only failure is the cipher's own, on an absurdly long input; never a
/// panic.
pub fn encrypt(key: &Vec<u8>, plaintext: &Vec<u8>) -> (r: Option<Vec<u8>>)
    requires
        key@.len() == 32,
    ensures
        plaintext@.len() < MAX_PLAINTEXT_LEN ==> r is Some,
        r is Some ==> decryption_of(key@, r->Some_0@) == Some(plaintext@),
{
    chacha_encrypt(key, plaintext)
}

/// Authenticated decryption. Returns exactly what `decryption_of` says for
/// this key and ciphertext: `None` on a wrong key, a tampered or truncated
/// ciphertext, or one too short to carry a nonce.
pub fn decrypt(key: &Vec<u8>, ciphertext: &Vec<u8>) -> (r: Option<Vec<u8>>)
    requires
        key@.len() == 32,
    ensures
        r is Some <==> decryption_of(key@, ciphertext@) is Some,
        r is Some ==> r->Some_0@ == decryption_of(key@, ciphertext@)->Some_0,
{
    if ciphertext.len() < 12 {
        None
    } else {
        chacha_decrypt(key, ciphertext)
    }
}

} // verus!
