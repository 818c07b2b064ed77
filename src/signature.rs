use vstd::prelude::*;

verus! {

#[verifier::external_type_specification]
#[verifier::external_body]
pub struct ExKeypair(ed25519_dalek::Keypair);

/// Whether `signature` is a valid Ed25519 signature of `message` under `public_key`.
pub uninterp spec fn ed25519_verifies(
    public_key: Seq<u8>,
    message: Seq<u8>,
    signature: Seq<u8>,
) -> bool;

/// The Ed25519 signature of `message` made with the 64-byte key pair `key_pair`, or `None`
/// where the key pair does not parse.
pub uninterp spec fn ed25519_signature(key_pair: Seq<u8>, message: Seq<u8>) -> Option<Seq<u8>>;

/// Relies on `ed25519_dalek::PublicKey::from_bytes`, `ed25519::Signature::from_bytes` and
/// `Verifier::verify`: the check depends on the key, the message and the signature alone, and
/// fails where the key or the signature does not parse.
#[verifier::external_body]
pub(crate) fn ed25519_verify(public_key: &[u8; 32], message: &[u8], signature: &[u8; 64]) -> (r:
    bool)
    ensures
        r == ed25519_verifies(public_key@, message@, signature@),
{
    let key = match ed25519_dalek::PublicKey::from_bytes(public_key) {
        Ok(k) => k,
        Err(_) => return false,
    };
    let sig = match ed25519_dalek::Signature::from_bytes(signature) {
        Ok(s) => s,
        Err(_) => return false,
    };
    ed25519_dalek::Verifier::verify(&key, message, &sig).is_ok()
}

/// Relies on `ed25519_dalek::Keypair::from_bytes` and `Signer::sign`: Ed25519 signing is
/// deterministic in the key pair and the message; a key pair that does not parse gives `None`.
#[verifier::external_body]
pub(crate) fn ed25519_sign(key_pair: &[u8; 64], message: &[u8]) -> (r: Option<[u8; 64]>)
    ensures
        ed25519_signature(key_pair@, message@) == match r {
            Some(s) => Some(s@),
            None => None::<Seq<u8>>,
        },
{
    match ed25519_dalek::Keypair::from_bytes(key_pair) {
        Ok(kp) => Some(ed25519_dalek::Signer::sign(&kp, message).to_bytes()),
        Err(_) => None,
    }
}

/// Relies on `ed25519_dalek::Keypair::generate` with `rand::rngs::OsRng`: a fresh random key
/// pair, secret half first.
#[verifier::external_body]
pub(crate) fn ed25519_generate() -> (r: [u8; 64]) {
    ed25519_dalek::Keypair::generate(&mut rand::rngs::OsRng).to_bytes()
}

/// Relies on `ed25519_dalek::Keypair::to_bytes`: the secret half, then the public half.
#[verifier::external_body]
pub(crate) fn ed25519_key_pair_bytes(key_pair: &ed25519_dalek::Keypair) -> (r: [u8; 64]) {
    key_pair.to_bytes()
}

} // verus!
