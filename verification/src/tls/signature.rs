use vstd::prelude::*;
use crate::error::Error;
use crate::tls::digest::DigestAlgorithm;

verus! {

/// A signature and the scheme it was made with.
#[derive(Debug, Clone)]
pub struct SignedData {
    pub signature_scheme: Signature,
    pub data: Vec<u8>,
}

#[allow(non_camel_case_types)]
#[derive(Debug, Clone, Copy, PartialEq, Eq, Structural)]
pub enum Signature {
    RSA_SHA256,
}

impl Signature {
    /// The scheme's two-byte identifier on the wire.
    pub open spec fn wire(self) -> Seq<u8> {
        seq![0x04u8, 0x01u8]
    }
}

/// The RSA PKCS#1 v1.5 signature with SHA-256 of `data` under the private
/// key whose DER encoding is `key_der`; `None` where the key is refused.
pub uninterp spec fn rsa_pkcs1_sha256(key_der: Seq<u8>, data: Seq<u8>) -> Option<Seq<u8>>;

/// Calls `ring::signature::RsaKeyPair::from_der` and `sign` with
/// `RSA_PKCS1_SHA256`: the padding is deterministic, so the outcome depends
/// on the key and the data alone.
#[verifier::external_body]
fn rsa_sign_pkcs1_sha256(key_der: &[u8], data: &[u8]) -> (sig: Option<Vec<u8>>)
    ensures
        sig.is_some() == rsa_pkcs1_sha256(key_der@, data@).is_some(),
        sig matches Some(s) ==> Some(s@) == rsa_pkcs1_sha256(key_der@, data@),
{
    let key_pair = match ring::signature::RsaKeyPair::from_der(key_der) {
        Ok(k) => k,
        Err(_) => return None,
    };
    let rng = ring::rand::SystemRandom::new();
    let mut signature = vec![0u8; key_pair.public().modulus_len()];
    match key_pair.sign(&ring::signature::RSA_PKCS1_SHA256, &rng, data, &mut signature) {
        Ok(()) => Some(signature),
        Err(_) => None,
    }
}

/// A signer over a DER-encoded RSA private key.
pub struct RSASignature {
    pub encryption_key: Vec<u8>,
}

impl RSASignature {
    pub fn new(encryption_key: Vec<u8>) -> (s: RSASignature)
        ensures
            s.encryption_key == encryption_key,
    {
        RSASignature { encryption_key }
    }

    /// Signs `data`. A key that cannot be used gives code 5003.
    pub fn sign(&self, digest: DigestAlgorithm, data: &[u8]) -> (r: Result<SignedData, Error>)
        ensures
            r is Ok <==> rsa_pkcs1_sha256(self.encryption_key@, data@).is_some(),
            r matches Ok(signed) ==> signed.signature_scheme == Signature::RSA_SHA256 && Some(
                signed.data@,
            ) == rsa_pkcs1_sha256(self.encryption_key@, data@),
            r matches Err(e) ==> e.code == 5003,
    {
        let scheme = match digest {
            DigestAlgorithm::SHA256 => Signature::RSA_SHA256,
        };
        match rsa_sign_pkcs1_sha256(self.encryption_key.as_slice(), data) {
            Some(signature) => Ok(SignedData { signature_scheme: scheme, data: signature }),
            None => Err(Error::new("The private key cannot sign.", 5003)),
        }
    }
}

} // verus!
