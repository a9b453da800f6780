use vstd::prelude::*;

verus! {

/// HMAC-SHA-256 of `msg` under `key`, as a function of the two byte strings.
pub uninterp spec fn hmac_sha256(key: Seq<u8>, msg: Seq<u8>) -> Seq<u8>;

/// SHA-256 of `data`, as a function of the bytes.
pub uninterp spec fn sha256(data: Seq<u8>) -> Seq<u8>;

/// Calls `crypto::hmac::Hmac::<Sha256>::new`, `input` and `result`: the tag
/// is the HMAC-SHA-256 of the message and has 32 bytes.
#[verifier::external_body]
fn hmac_sha256_tag(key: &[u8], msg: &[u8]) -> (tag: Vec<u8>)
    ensures
        tag@ == hmac_sha256(key@, msg@),
        tag@.len() == 32,
{
    let mut mac = crypto::hmac::Hmac::new(crypto::sha2::Sha256::new(), key);
    crypto::mac::Mac::input(&mut mac, msg);
    crypto::mac::Mac::result(&mut mac).code().to_vec()
}

/// Calls `crypto::sha2::Sha256::new`, `input` and `result`: the digest is
/// the SHA-256 of the data and has 32 bytes.
#[verifier::external_body]
fn sha256_digest(data: &[u8]) -> (digest: Vec<u8>)
    ensures
        digest@ == sha256(data@),
        digest@.len() == 32,
{
    let mut hasher = crypto::sha2::Sha256::new();
    crypto::digest::Digest::input(&mut hasher, data);
    let mut out = vec![0u8; 32];
    crypto::digest::Digest::result(&mut hasher, &mut out);
    out
}

/// A keyed HMAC-SHA-256.
pub struct HmacSha256 {
    pub key: Vec<u8>,
}

impl HmacSha256 {
    pub fn new(key: &[u8]) -> (mac: HmacSha256)
        ensures
            mac.key@ == key@,
    {
        HmacSha256 { key: vstd::slice::slice_to_vec(key) }
    }

    /// The 32-byte tag of `msg` under this key.
    pub fn compute(&self, msg: &[u8]) -> (tag: Vec<u8>)
        ensures
            tag@ == hmac_sha256(self.key@, msg@),
            tag@.len() == 32,
    {
        hmac_sha256_tag(self.key.as_slice(), msg)
    }
}

/// The digests a signature can be made over.
#[derive(Debug, Clone, Copy, PartialEq, Eq, Structural)]
pub enum DigestAlgorithm {
    SHA256,
}

impl DigestAlgorithm {
    /// The digest of `data`.
    pub fn digest(&self, data: &[u8]) -> (out: Vec<u8>)
        ensures
            out@ == sha256(data@),
            out@.len() == 32,
    {
        match self {
            DigestAlgorithm::SHA256 => sha256_digest(data),
        }
    }
}

} // verus!
