use vstd::prelude::*;
use crate::error::Error;

verus! {

/// The curves a key exchange can run on.
#[allow(non_camel_case_types)]
#[derive(Debug, Clone, Copy, PartialEq, Eq, Structural)]
pub enum ECCurve {
    x25519,
}

/// The u-coordinate of the x25519 base point times the clamped `scalar`.
pub uninterp spec fn x25519_public(scalar: Seq<u8>) -> Seq<u8>;

/// The u-coordinate of `point` times the clamped `scalar`.
pub uninterp spec fn x25519_shared(scalar: Seq<u8>, point: Seq<u8>) -> Seq<u8>;

/// AES-128-GCM of `plaintext`: the ciphertext followed by the 16-byte tag.
pub uninterp spec fn aes_128_gcm_seal(
    key: Seq<u8>,
    nonce: Seq<u8>,
    aad: Seq<u8>,
    plaintext: Seq<u8>,
) -> Seq<u8>;

/// What AES-128-GCM recovers from a ciphertext with its tag; `None` where
/// the tag does not authenticate it.
pub uninterp spec fn aes_128_gcm_open(
    key: Seq<u8>,
    nonce: Seq<u8>,
    aad: Seq<u8>,
    sealed: Seq<u8>,
) -> Option<Seq<u8>>;

/// What clamping makes of 32 random bytes: the three low bits cleared, the
/// top bit cleared and the bit below it set.
pub open spec fn clamped(scalar: Seq<u8>) -> Seq<u8>
    recommends
        scalar.len() == 32,
{
    scalar.update(0, scalar[0] & 248).update(31, (scalar[31] & 127) | 64)
}

/// Calls `rand_core::OsRng.try_fill_bytes` on a buffer of 32 bytes; nothing
/// is known of the bytes but their number.
#[verifier::external_body]
pub(crate) fn random_32() -> (r: Option<Vec<u8>>)
    ensures
        r matches Some(bytes) ==> bytes@.len() == 32,
{
    let mut bytes = vec![0u8; 32];
    match rand_core::RngCore::try_fill_bytes(&mut rand_core::OsRng, &mut bytes) {
        Ok(()) => Some(bytes),
        Err(_) => None,
    }
}

/// Calls `curve25519_dalek::montgomery::MontgomeryPoint::mul_base_clamped`.
#[verifier::external_body]
fn x25519_base_mul(scalar: &Vec<u8>) -> (public: Vec<u8>)
    requires
        scalar@.len() == 32,
    ensures
        public@ == x25519_public(scalar@),
        public@.len() == 32,
{
    let mut bytes = [0u8; 32];
    bytes.copy_from_slice(scalar);
    curve25519_dalek::montgomery::MontgomeryPoint::mul_base_clamped(bytes).to_bytes().to_vec()
}

/// Calls `curve25519_dalek::montgomery::MontgomeryPoint::mul_clamped`.
#[verifier::external_body]
fn x25519_mul(scalar: &Vec<u8>, point: &[u8]) -> (shared: Vec<u8>)
    requires
        scalar@.len() == 32,
        point@.len() == 32,
    ensures
        shared@ == x25519_shared(scalar@, point@),
        shared@.len() == 32,
{
    let mut bytes = [0u8; 32];
    bytes.copy_from_slice(scalar);
    let mut peer = [0u8; 32];
    peer.copy_from_slice(point);
    curve25519_dalek::montgomery::MontgomeryPoint(peer).mul_clamped(bytes).to_bytes().to_vec()
}

/// Calls `crypto::aes_gcm::AesGcm::new` with `KeySize128` and `encrypt`.
#[verifier::external_body]
fn gcm_seal(data: &[u8], nonce: &[u8], key: &[u8], aad: &[u8]) -> (sealed: Vec<u8>)
    requires
        key@.len() == 16,
        nonce@.len() == 12,
    ensures
        sealed@ == aes_128_gcm_seal(key@, nonce@, aad@, data@),
        sealed@.len() == data@.len() + 16,
{
    let mut cipher = crypto::aes_gcm::AesGcm::new(crypto::aes::KeySize::KeySize128, key, nonce, aad);
    let mut enc = vec![0u8; data.len()];
    let mut tag = vec![0u8; 16];
    crypto::aead::AeadEncryptor::encrypt(&mut cipher, data, &mut enc, &mut tag);
    enc.extend(tag);
    enc
}

/// Calls `crypto::aes_gcm::AesGcm::new` with `KeySize128` and `decrypt`. It
/// recomputes the tag as `encrypt` does and, where the tags agree, applies
/// the same key stream: what was sealed under the same key, nonce and
/// associated data is recovered.
#[verifier::external_body]
fn gcm_open(ciphertext: &[u8], tag: &[u8], nonce: &[u8], key: &[u8], aad: &[u8]) -> (opened: Option<
    Vec<u8>,
>)
    requires
        key@.len() == 16,
        nonce@.len() == 12,
        tag@.len() == 16,
    ensures
        opened.is_some() == aes_128_gcm_open(key@, nonce@, aad@, ciphertext@ + tag@).is_some(),
        opened matches Some(plain) ==> Some(plain@) == aes_128_gcm_open(
            key@,
            nonce@,
            aad@,
            ciphertext@ + tag@,
        ) && plain@.len() == ciphertext@.len(),
        forall|plain: Seq<u8>|
            ciphertext@ + tag@ == #[trigger] aes_128_gcm_seal(key@, nonce@, aad@, plain) ==> opened
                is Some && opened->0@ == plain,
{
    let mut cipher = crypto::aes_gcm::AesGcm::new(crypto::aes::KeySize::KeySize128, key, nonce, aad);
    let mut dec = vec![0u8; ciphertext.len()];
    if crypto::aead::AeadDecryptor::decrypt(&mut cipher, ciphertext, &mut dec, tag) {
        Some(dec)
    } else {
        None
    }
}

/// The server's ephemeral x25519 key pair, as bytes.
pub struct EphemeralPair {
    pub private_key: Vec<u8>,
    pub public_key: Vec<u8>,
}

impl EphemeralPair {
    /// A pair is sound when the private key is a clamped scalar of 32 bytes
    /// and the public key has 32 bytes.
    pub open spec fn wf(&self) -> bool {
        &&& self.private_key@.len() == 32
        &&& self.private_key@ == clamped(self.private_key@)
        &&& self.public_key@.len() == 32
    }

    /// A fresh pair from the system's random source; code 5003 where that
    /// source fails.
    pub fn new() -> (r: Result<EphemeralPair, Error>)
        ensures
            r matches Ok(pair) ==> pair.wf() && pair.public_key@ == x25519_public(pair.private_key@),
            r matches Err(e) ==> e.code == 5003,
    {
        match random_32() {
            Some(bytes) => Ok(EphemeralPair::from_secret(bytes)),
            None => Err(Error::new("No random bytes for the key pair.", 5003)),
        }
    }

    /// The pair whose private key is `secret`, clamped.
    pub fn from_secret(secret: Vec<u8>) -> (pair: EphemeralPair)
        requires
            secret@.len() == 32,
        ensures
            pair.wf(),
            pair.private_key@ == clamped(secret@),
            pair.public_key@ == x25519_public(pair.private_key@),
    {
        let private_key = clamp_scalar(secret);
        let public_key = x25519_base_mul(&private_key);
        EphemeralPair { private_key, public_key }
    }

    /// The secret shared with the holder of `other_public`.
    pub fn diffie_hellman(&self, other_public: &[u8]) -> (shared: Vec<u8>)
        requires
            self.wf(),
            other_public@.len() == 32,
        ensures
            shared@ == x25519_shared(self.private_key@, other_public@),
            shared@.len() == 32,
    {
        x25519_mul(&self.private_key, other_public)
    }

    /// The pair's public key.
    pub fn public_key(&self) -> (key: &Vec<u8>)
        ensures
            key == self.public_key,
    {
        &self.public_key
    }
}

/// Clamps 32 bytes into an x25519 scalar.
pub fn clamp_scalar(scalar: Vec<u8>) -> (r: Vec<u8>)
    requires
        scalar@.len() == 32,
    ensures
        r@ == clamped(scalar@),
        r@ == clamped(r@),
{
    let mut scalar = scalar;
    let first: u8 = scalar[0];
    let last: u8 = scalar[31];
    scalar.set(0, first & 248);
    scalar.set(31, (last & 127) | 64);
    proof {
        assert((first & 248) & 248 == first & 248) by (bit_vector);
        assert((((last & 127) | 64) & 127) | 64 == (last & 127) | 64) by (bit_vector);
        assert(scalar@ =~= clamped(scalar@));
    }
    scalar
}

/// AES-128-GCM with the tag appended to the ciphertext.
pub struct EncryptedMessage;

impl EncryptedMessage {
    /// Encrypts `data`; the result is the ciphertext followed by the tag.
    pub fn encrypt(data: &[u8], encryption_iv: &[u8], encrypt_key: &[u8], aad: &[u8]) -> (r: Vec<u8>)
        requires
            encrypt_key@.len() == 16,
            encryption_iv@.len() == 12,
        ensures
            r@ == aes_128_gcm_seal(encrypt_key@, encryption_iv@, aad@, data@),
            r@.len() == data@.len() + 16,
    {
        gcm_seal(data, encryption_iv, encrypt_key, aad)
    }

    /// Decrypts a ciphertext with its tag. Code 5006 where the tag does not
    /// authenticate it, or where there is no room for a tag.
    pub fn decrypt(data: &[u8], encryption_iv: &[u8], decrypt_key: &[u8], aad: &[u8]) -> (r: Result<
        Vec<u8>,
        Error,
    >)
        requires
            decrypt_key@.len() == 16,
            encryption_iv@.len() == 12,
        ensures
            r is Ok <==> data@.len() >= 16 && aes_128_gcm_open(
                decrypt_key@,
                encryption_iv@,
                aad@,
                data@,
            ).is_some(),
            r matches Ok(plain) ==> Some(plain@) == aes_128_gcm_open(
                decrypt_key@,
                encryption_iv@,
                aad@,
                data@,
            ) && plain@.len() == data@.len() - 16,
            r matches Err(e) ==> e.code == 5006,
            forall|plain: Seq<u8>|
                data@ == #[trigger] aes_128_gcm_seal(decrypt_key@, encryption_iv@, aad@, plain)
                    && data@.len() >= 16 ==> r is Ok && r->Ok_0@ == plain,
    {
        if data.len() < 16 {
            return Err(Error::new("Failed to decrypt the message.", 5006));
        }
        let split: usize = data.len() - 16;
        let ciphertext = vstd::slice::slice_subrange(data, 0, split);
        let tag = vstd::slice::slice_subrange(data, split, data.len());
        proof {
            assert(ciphertext@ + tag@ =~= data@);
        }
        match gcm_open(ciphertext, tag, encryption_iv, decrypt_key, aad) {
            Some(plain) => Ok(plain),
            None => Err(Error::new("Failed to decrypt the message.", 5006)),
        }
    }
}

} // verus!
