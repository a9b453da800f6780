use vstd::prelude::*;
use vstd::string::*;
use crate::error::Error;
use crate::tls::crypto::{
    aes_128_gcm_open, aes_128_gcm_seal, clamped, random_32, x25519_public, x25519_shared,
    EncryptedMessage, EphemeralPair,
};
use crate::tls::digest::{hmac_sha256, sha256, DigestAlgorithm, HmacSha256};
use crate::tls::protocol::{
    certificate_message, certificates_view, encodable, handshake_wire, parse_handshake,
    record_wire, HandshakeMessage, HandshakeSpec, RecordSpec, TLSMessage,
};
use crate::tls::signature::{rsa_pkcs1_sha256, RSASignature};
use crate::tls::{Certificate, CipherSuite, TLSExtension, TLSRecord, TLSVersion};
use crate::utils::{
    be16, be24, be64, bytes_equal, concat_all, copy_bytes, copy_range, lemma_be64_injective,
    lemma_concat_all_push, opt_bytes, push_all, push_be16, push_be24, push_be64,
};

verus! {

/// The label of the master secret.
pub open spec fn label_master_secret() -> Seq<u8> {
    "master secret".spec_bytes()
}

/// The label of the key block.
pub open spec fn label_key_expansion() -> Seq<u8> {
    "key expansion".spec_bytes()
}

/// The label of the client's Finished.
pub open spec fn label_client_finished() -> Seq<u8> {
    "client finished".spec_bytes()
}

/// The label of the server's Finished.
pub open spec fn label_server_finished() -> Seq<u8> {
    "server finished".spec_bytes()
}

/// `A(i)` of the pseudo-random function: `A(0)` is the seed and `A(i)` the
/// HMAC of `A(i-1)`.
pub open spec fn prf_a(secret: Seq<u8>, seed: Seq<u8>, i: nat) -> Seq<u8>
    decreases i,
{
    if i == 0 {
        seed
    } else {
        hmac_sha256(secret, prf_a(secret, seed, (i - 1) as nat))
    }
}

/// The first `k` output blocks, `P(i) = HMAC(secret, A(i) + seed)`, joined.
pub open spec fn prf_blocks(secret: Seq<u8>, seed: Seq<u8>, k: nat) -> Seq<u8>
    decreases k,
{
    if k == 0 {
        Seq::empty()
    } else {
        prf_blocks(secret, seed, (k - 1) as nat) + hmac_sha256(
            secret,
            prf_a(secret, seed, k) + seed,
        )
    }
}

/// The TLS 1.2 pseudo-random function over HMAC-SHA-256: as many blocks as
/// `n` bytes need, cut to `n` bytes.
pub open spec fn prf(secret: Seq<u8>, label: Seq<u8>, seed: Seq<u8>, n: nat) -> Seq<u8> {
    prf_blocks(secret, label + seed, (n + 31) / 32).take(n as int)
}

/// Computes [`prf`].
pub fn prf_bytes(secret: &[u8], label: &[u8], seed: &[u8], n: usize) -> (out: Vec<u8>)
    requires
        n <= 0xffff,
    ensures
        out@ == prf(secret@, label@, seed@, n as nat),
        out@.len() == n,
{
    let mac = HmacSha256::new(secret);
    let mut full_seed: Vec<u8> = copy_bytes(label);
    push_all(&mut full_seed, seed);
    let mut a: Vec<u8> = copy_bytes(full_seed.as_slice());
    let mut blocks: Vec<u8> = Vec::new();
    let mut k: usize = 0;
    while blocks.len() < n
        invariant
            n <= 0xffff,
            mac.key@ == secret@,
            full_seed@ == label@ + seed@,
            a@ == prf_a(secret@, full_seed@, k as nat),
            blocks@ == prf_blocks(secret@, full_seed@, k as nat),
            blocks@.len() == 32 * k,
            32 * k < n + 32,
        decreases n + 32 - blocks@.len(),
    {
        a = mac.compute(a.as_slice());
        let mut input: Vec<u8> = copy_bytes(a.as_slice());
        push_all(&mut input, full_seed.as_slice());
        let block = mac.compute(input.as_slice());
        push_all(&mut blocks, block.as_slice());
        k += 1;
    }
    proof {
        assert(k == (n + 31) / 32);
    }
    let out = copy_range(blocks.as_slice(), 0, n);
    proof {
        assert(out@ =~= blocks@.take(n as int));
    }
    out
}

/// The master secret: 48 bytes from the shared secret and the two randoms.
pub open spec fn master_secret_of(
    pre_master: Seq<u8>,
    client_random: Seq<u8>,
    server_random: Seq<u8>,
) -> Seq<u8> {
    prf(pre_master, label_master_secret(), client_random + server_random, 48)
}

/// The key block: 128 bytes from the master secret and the two randoms, the
/// server's first.
pub open spec fn key_block_of(
    master_secret: Seq<u8>,
    client_random: Seq<u8>,
    server_random: Seq<u8>,
) -> Seq<u8> {
    prf(master_secret, label_key_expansion(), server_random + client_random, 128)
}

/// The `verify_data` of a Finished message: 12 bytes from the master secret
/// and the hash of the transcript so far.
pub open spec fn verify_data_of(master_secret: Seq<u8>, label: Seq<u8>, transcript: Seq<u8>) -> Seq<
    u8,
> {
    prf(master_secret, label, sha256(transcript), 12)
}

/// The associated data of a protected record: the sequence number, the
/// record's type and version and the length of the plaintext.
pub open spec fn record_aad(seq: u64, record: TLSRecord, version: TLSVersion, len: int) -> Seq<u8> {
    be64(seq) + seq![record.wire()] + version.wire() + be16(len)
}

/// The payload of a protected record: the sequence number, then the
/// plaintext sealed under the nonce `iv + be64(seq)`.
pub open spec fn protected_payload(key: Seq<u8>, iv: Seq<u8>, seq: u64, r: RecordSpec) -> Seq<u8> {
    be64(seq) + aes_128_gcm_seal(
        key,
        iv + be64(seq),
        record_aad(seq, r.record, r.version, r.content.len() as int),
        r.content,
    )
}

/// The record `r` with another payload.
pub open spec fn with_content(r: RecordSpec, content: Seq<u8>) -> RecordSpec {
    RecordSpec { record: r.record, version: r.version, content }
}

/// Two records protected under different sequence numbers differ on the
/// wire, whatever they hold.
pub proof fn lemma_payloads_differ(
    key: Seq<u8>,
    iv: Seq<u8>,
    first: u64,
    second: u64,
    a: RecordSpec,
    b: RecordSpec,
)
    requires
        first != second,
    ensures
        protected_payload(key, iv, first, a) != protected_payload(key, iv, second, b),
{
    let x = protected_payload(key, iv, first, a);
    let y = protected_payload(key, iv, second, b);
    if x == y {
        assert(x.take(8) =~= be64(first));
        assert(y.take(8) =~= be64(second));
        lemma_be64_injective(first, second);
    }
}

} // verus!

verus! {

/// Where a session stands in the handshake.
#[derive(Debug, Clone, Copy, PartialEq, Eq, Structural)]
pub enum HandshakeState {
    WaitClientHello,
    WaitClientKeyExchange,
    WaitClientChangeCipherSpec,
    WaitClientFinished,
    Established,
}

/// A session as a value.
pub ghost struct SessionSpec {
    pub state: HandshakeState,
    pub is_encrypted: bool,
    pub server_random: Seq<u8>,
    pub client_random: Option<Seq<u8>>,
    pub client_public_key: Option<Seq<u8>>,
    pub private_scalar: Seq<u8>,
    pub public_key: Seq<u8>,
    pub master_secret: Option<Seq<u8>>,
    pub client_mac_key: Option<Seq<u8>>,
    pub server_mac_key: Option<Seq<u8>>,
    pub client_write_key: Option<Seq<u8>>,
    pub server_write_key: Option<Seq<u8>>,
    pub client_write_iv: Option<Seq<u8>>,
    pub server_write_iv: Option<Seq<u8>>,
    pub transcript: Seq<Seq<u8>>,
    pub incoming_encrypted_counter: u64,
    pub outgoing_encrypted_counter: u64,
    pub certificates: Seq<Seq<u8>>,
    pub private_key: Seq<u8>,
}

/// The server's side of one TLS 1.2 session.
pub struct TLSSession {
    pub state: HandshakeState,
    pub is_encrypted: bool,
    pub server_random: Vec<u8>,
    pub client_random: Option<Vec<u8>>,
    pub client_public_key: Option<Vec<u8>>,
    pub ephemeral_pair: EphemeralPair,
    pub master_secret: Option<Vec<u8>>,
    /// The MAC keys have their place in the schedule; the one cipher suite
    /// uses none, so they are never set.
    pub client_mac_key: Option<Vec<u8>>,
    pub server_mac_key: Option<Vec<u8>>,
    pub client_write_key: Option<Vec<u8>>,
    pub server_write_key: Option<Vec<u8>>,
    pub client_write_iv: Option<Vec<u8>>,
    pub server_write_iv: Option<Vec<u8>>,
    pub handshake_messages: Vec<Vec<u8>>,
    pub incoming_encrypted_counter: u64,
    pub outgoing_encrypted_counter: u64,
    pub certificates: Vec<Certificate>,
    pub private_key: Vec<u8>,
}

/// What the connection does after a record was handled.
#[derive(Debug)]
pub enum Action {
    /// Write these bytes to the peer.
    Write(Vec<u8>),
    /// Hand these decrypted bytes to the HTTP layer.
    Deliver(Vec<u8>),
    /// Shut down the write half: the peer sent a fatal alert.
    Shutdown,
    /// Nothing.
    Nothing,
}

impl View for TLSSession {
    type V = SessionSpec;

    open spec fn view(&self) -> SessionSpec {
        SessionSpec {
            state: self.state,
            is_encrypted: self.is_encrypted,
            server_random: self.server_random@,
            client_random: opt_bytes(self.client_random),
            client_public_key: opt_bytes(self.client_public_key),
            private_scalar: self.ephemeral_pair.private_key@,
            public_key: self.ephemeral_pair.public_key@,
            master_secret: opt_bytes(self.master_secret),
            client_mac_key: opt_bytes(self.client_mac_key),
            server_mac_key: opt_bytes(self.server_mac_key),
            client_write_key: opt_bytes(self.client_write_key),
            server_write_key: opt_bytes(self.server_write_key),
            client_write_iv: opt_bytes(self.client_write_iv),
            server_write_iv: opt_bytes(self.server_write_iv),
            transcript: self.handshake_messages@.map_values(|m: Vec<u8>| m@),
            incoming_encrypted_counter: self.incoming_encrypted_counter,
            outgoing_encrypted_counter: self.outgoing_encrypted_counter,
            certificates: certificates_view(self.certificates@),
            private_key: self.private_key@,
        }
    }
}

impl SessionSpec {
    /// The lengths that the key schedule and the ciphers rely on.
    pub open spec fn wf(self) -> bool {
        &&& self.server_random.len() == 32
        &&& self.private_scalar.len() == 32
        &&& self.private_scalar == clamped(self.private_scalar)
        &&& self.public_key.len() == 32
        &&& (self.client_public_key matches Some(k) ==> k.len() == 32)
        &&& (self.client_write_key matches Some(k) ==> k.len() == 16)
        &&& (self.server_write_key matches Some(k) ==> k.len() == 16)
        &&& (self.client_write_iv matches Some(k) ==> k.len() == 4)
        &&& (self.server_write_iv matches Some(k) ==> k.len() == 4)
    }

    /// The session before anything was received.
    pub open spec fn fresh(
        server_random: Seq<u8>,
        private_scalar: Seq<u8>,
        certificates: Seq<Seq<u8>>,
        private_key: Seq<u8>,
    ) -> SessionSpec {
        SessionSpec {
            state: HandshakeState::WaitClientHello,
            is_encrypted: false,
            server_random,
            client_random: None,
            client_public_key: None,
            private_scalar,
            public_key: x25519_public(private_scalar),
            master_secret: None,
            client_mac_key: None,
            server_mac_key: None,
            client_write_key: None,
            server_write_key: None,
            client_write_iv: None,
            server_write_iv: None,
            transcript: Seq::empty(),
            incoming_encrypted_counter: 0,
            outgoing_encrypted_counter: 0,
            certificates,
            private_key,
        }
    }

    /// The session with the keys that the two randoms and the peer's public
    /// key give: the master secret, then the first 40 bytes of the key block
    /// as the two write keys and the two write IVs, the client's first.
    pub open spec fn with_keys(self) -> SessionSpec
        recommends
            self.client_random is Some,
            self.client_public_key is Some,
    {
        let pre_master = x25519_shared(self.private_scalar, self.client_public_key->0);
        let master = master_secret_of(pre_master, self.client_random->0, self.server_random);
        let block = key_block_of(master, self.client_random->0, self.server_random);
        SessionSpec {
            master_secret: Some(master),
            client_write_key: Some(block.subrange(0, 16)),
            server_write_key: Some(block.subrange(16, 32)),
            client_write_iv: Some(block.subrange(32, 36)),
            server_write_iv: Some(block.subrange(36, 40)),
            ..self
        }
    }

    /// Whether a record can be protected for sending: the keys are there, the
    /// length fits its field and the counter can still advance.
    pub open spec fn can_encrypt(self, r: RecordSpec) -> bool {
        &&& self.server_write_key is Some
        &&& self.server_write_iv is Some
        &&& r.content.len() <= 0xffff
        &&& self.outgoing_encrypted_counter < u64::MAX
    }

    /// The record that protects `r` for sending.
    pub open spec fn encrypted(self, r: RecordSpec) -> RecordSpec {
        RecordSpec {
            content: protected_payload(
                self.server_write_key->0,
                self.server_write_iv->0,
                self.outgoing_encrypted_counter,
                r,
            ),
            ..r
        }
    }

    /// The associated data under which a received record was sealed: its
    /// plaintext is shorter than its payload by the explicit nonce and the
    /// tag.
    pub open spec fn incoming_aad(self, r: RecordSpec) -> Seq<u8> {
        record_aad(self.incoming_encrypted_counter, r.record, r.version, r.content.len() - 24)
    }

    /// The code with which a received record is refused.
    pub open spec fn open_error(self, r: RecordSpec) -> u16 {
        if self.client_write_key is None || self.client_write_iv is None {
            5003u16
        } else if r.content.len() < 24 || r.content.len() > 0xffff {
            5006u16
        } else if self.incoming_encrypted_counter == u64::MAX {
            5004u16
        } else {
            5006u16
        }
    }

    /// What a received record holds, where it is authentic. The nonce is the
    /// client's write IV followed by the record's first eight bytes.
    pub open spec fn opened(self, r: RecordSpec) -> Option<Seq<u8>> {
        if self.client_write_key is None || self.client_write_iv is None || r.content.len() < 24
            || r.content.len() > 0xffff || self.incoming_encrypted_counter == u64::MAX {
            None
        } else {
            aes_128_gcm_open(
                self.client_write_key->0,
                self.client_write_iv->0 + r.content.subrange(0, 8),
                self.incoming_aad(r),
                r.content.skip(8),
            )
        }
    }
}

impl TLSSession {
    /// A session with a fresh server random and a fresh key pair. Code 5003
    /// where the system has no random bytes to give.
    pub fn new(certificates: Vec<Certificate>, private_key: Vec<u8>) -> (r: Result<TLSSession, Error>)
        ensures
            r matches Ok(s) ==> s@.wf() && s@ == SessionSpec::fresh(
                s@.server_random,
                s@.private_scalar,
                certificates_view(certificates@),
                private_key@,
            ),
            r matches Err(e) ==> e.code == 5003,
    {
        let server_random = match random_32() {
            Some(bytes) => bytes,
            None => {
                return Err(Error::new("No random bytes for the session.", 5003));
            },
        };
        let secret = match random_32() {
            Some(bytes) => bytes,
            None => {
                return Err(Error::new("No random bytes for the session.", 5003));
            },
        };
        Ok(TLSSession::with_secrets(server_random, secret, certificates, private_key))
    }

    /// The session with the given server random, whose private key is
    /// `secret`, clamped.
    pub fn with_secrets(
        server_random: Vec<u8>,
        secret: Vec<u8>,
        certificates: Vec<Certificate>,
        private_key: Vec<u8>,
    ) -> (s: TLSSession)
        requires
            server_random@.len() == 32,
            secret@.len() == 32,
        ensures
            s@.wf(),
            s@ == SessionSpec::fresh(
                server_random@,
                clamped(secret@),
                certificates_view(certificates@),
                private_key@,
            ),
    {
        let ephemeral_pair = EphemeralPair::from_secret(secret);
        let s = TLSSession {
            state: HandshakeState::WaitClientHello,
            is_encrypted: false,
            server_random,
            client_random: None,
            client_public_key: None,
            ephemeral_pair,
            master_secret: None,
            client_mac_key: None,
            server_mac_key: None,
            client_write_key: None,
            server_write_key: None,
            client_write_iv: None,
            server_write_iv: None,
            handshake_messages: Vec::new(),
            incoming_encrypted_counter: 0,
            outgoing_encrypted_counter: 0,
            certificates,
            private_key,
        };
        proof {
            assert(s@.transcript =~= Seq::<Seq<u8>>::empty());
        }
        s
    }

    /// Whether the handshake is over.
    pub fn handshake_finished(&self) -> (done: bool)
        ensures
            done == (self@.state == HandshakeState::Established),
    {
        match self.state {
            HandshakeState::Established => true,
            _ => false,
        }
    }

    /// Derives the master secret and the traffic keys. Code 5003 where the
    /// client's random or public key has not been received; the session is
    /// then left as it was.
    pub fn calculate_encryption_keys(&mut self) -> (r: Result<(), Error>)
        requires
            old(self)@.wf(),
        ensures
            r is Ok <==> old(self)@.client_random is Some && old(self)@.client_public_key is Some,
            r is Ok ==> final(self)@ == old(self)@.with_keys(),
            r matches Err(e) ==> e.code == 5003 && final(self)@ == old(self)@,
            final(self)@.wf(),
    {
        let (master, block) = match (&self.client_random, &self.client_public_key) {
            (Some(client_random), Some(client_public_key)) => {
                let shared = self.ephemeral_pair.diffie_hellman(client_public_key.as_slice());
                let mut seed: Vec<u8> = copy_bytes(client_random.as_slice());
                push_all(&mut seed, self.server_random.as_slice());
                let master = prf_bytes(
                    shared.as_slice(),
                    "master secret".as_bytes(),
                    seed.as_slice(),
                    48,
                );
                let mut seed: Vec<u8> = copy_bytes(self.server_random.as_slice());
                push_all(&mut seed, client_random.as_slice());
                let block = prf_bytes(
                    master.as_slice(),
                    "key expansion".as_bytes(),
                    seed.as_slice(),
                    128,
                );
                (master, block)
            },
            _ => {
                return Err(Error::new("Encryption keys cannot be calculated.", 5003));
            },
        };
        self.client_write_key = Some(copy_range(block.as_slice(), 0, 16));
        self.server_write_key = Some(copy_range(block.as_slice(), 16, 32));
        self.client_write_iv = Some(copy_range(block.as_slice(), 32, 36));
        self.server_write_iv = Some(copy_range(block.as_slice(), 36, 40));
        self.master_secret = Some(master);
        Ok(())
    }

    /// Protects a record for sending and advances the outgoing counter.
    /// Code 5003 where the keys are not derived, 5004 where the record is too
    /// long or the counter is used up; the session is then left as it was.
    pub fn encrypt_message(&mut self, message: TLSMessage) -> (r: Result<TLSMessage, Error>)
        requires
            old(self)@.wf(),
        ensures
            r is Ok <==> old(self)@.can_encrypt(message@),
            r matches Ok(m) ==> m@ == old(self)@.encrypted(message@) && m@.content.len()
                == message@.content.len() + 24 && final(self)@ == (SessionSpec {
                outgoing_encrypted_counter: (old(self)@.outgoing_encrypted_counter + 1) as u64,
                ..old(self)@
            }),
            r matches Err(e) ==> final(self)@ == old(self)@ && e.code == (if old(self)@.server_write_key is None || old(self)@.server_write_iv is None {
                5003u16
            } else {
                5004u16
            }),
            final(self)@.wf(),
    {
        let content = match (&self.server_write_key, &self.server_write_iv) {
            (Some(key), Some(iv)) => {
                if message.content.len() > 0xffff || self.outgoing_encrypted_counter == u64::MAX {
                    return Err(Error::new("The record cannot be protected.", 5004));
                }
                let seq = self.outgoing_encrypted_counter;
                let mut nonce: Vec<u8> = copy_bytes(iv.as_slice());
                push_be64(&mut nonce, seq);
                let mut aad: Vec<u8> = Vec::new();
                push_be64(&mut aad, seq);
                aad.push(message.record.get_value());
                let version = message.version.get_value();
                aad.push(version[0]);
                aad.push(version[1]);
                push_be16(&mut aad, message.content.len());
                proof {
                    assert(aad@ =~= record_aad(
                        seq,
                        message.record,
                        message.version,
                        message.content@.len() as int,
                    ));
                }
                let sealed = EncryptedMessage::encrypt(
                    message.content.as_slice(),
                    nonce.as_slice(),
                    key.as_slice(),
                    aad.as_slice(),
                );
                let mut content: Vec<u8> = Vec::new();
                push_be64(&mut content, seq);
                push_all(&mut content, sealed.as_slice());
                content
            },
            _ => {
                return Err(Error::new("Encryption keys cannot be calculated.", 5003));
            },
        };
        self.outgoing_encrypted_counter = self.outgoing_encrypted_counter + 1;
        Ok(TLSMessage { version: message.version, record: message.record, content })
    }

    /// Opens a received record and advances the incoming counter. Code 5006
    /// where the record is not authentic, or too short or too long to be one
    /// (under 24 or over 65535 bytes), 5003 where the
    /// keys are not derived, 5004 where the counter is used up; the session
    /// is then left as it was.
    ///
    /// What the peer protected under the same key, IV and sequence number is
    /// recovered.
    pub fn decrypt_message(&mut self, message: TLSMessage) -> (r: Result<TLSMessage, Error>)
        requires
            old(self)@.wf(),
        ensures
            r is Ok <==> old(self)@.opened(message@) is Some,
            r matches Ok(m) ==> m@ == (RecordSpec {
                content: old(self)@.opened(message@)->0,
                ..message@
            }) && final(self)@ == (SessionSpec {
                incoming_encrypted_counter: (old(self)@.incoming_encrypted_counter + 1) as u64,
                ..old(self)@
            }),
            r matches Err(e) ==> final(self)@ == old(self)@ && e.code == old(self)@.open_error(
                message@,
            ),
            final(self)@.wf(),
            forall|plain: Seq<u8>|
                old(self)@.client_write_key is Some && old(self)@.client_write_iv is Some && old(self)@.incoming_encrypted_counter < u64::MAX && plain.len() + 24
                    == message@.content.len() && message@.content.len() <= 0xffff
                    && message@.content == #[trigger] protected_payload(
                    old(self)@.client_write_key->0,
                    old(self)@.client_write_iv->0,
                    old(self)@.incoming_encrypted_counter,
                    with_content(message@, plain),
                ) ==> r is Ok && r->Ok_0@.content == plain,
    {
        let plain = match (&self.client_write_key, &self.client_write_iv) {
            (Some(key), Some(iv)) => {
                if message.content.len() < 24 || message.content.len() > 0xffff {
                    return Err(Error::new("Failed to decrypt the message.", 5006));
                }
                if self.incoming_encrypted_counter == u64::MAX {
                    return Err(Error::new("The record cannot be opened.", 5004));
                }
                let seq = self.incoming_encrypted_counter;
                let mut nonce: Vec<u8> = copy_bytes(iv.as_slice());
                push_all(&mut nonce, vstd::slice::slice_subrange(message.content.as_slice(), 0, 8));
                let mut aad: Vec<u8> = Vec::new();
                push_be64(&mut aad, seq);
                aad.push(message.record.get_value());
                let version = message.version.get_value();
                aad.push(version[0]);
                aad.push(version[1]);
                push_be16(&mut aad, message.content.len() - 24);
                proof {
                    assert(aad@ =~= old(self)@.incoming_aad(message@));
                    assert(message.content@.subrange(8, message.content@.len() as int)
                        =~= message.content@.skip(8));
                    assert forall|plain: Seq<u8>|
                        plain.len() + 24 == message@.content.len() && message@.content
                            == #[trigger] protected_payload(
                            key@,
                            iv@,
                            seq,
                            with_content(message@, plain),
                        ) implies message.content@.skip(8) == aes_128_gcm_seal(
                        key@,
                        nonce@,
                        aad@,
                        plain,
                    ) by {
                        let sealed = aes_128_gcm_seal(
                            key@,
                            iv@ + be64(seq),
                            record_aad(seq, message.record, message.version, plain.len() as int),
                            plain,
                        );
                        assert((be64(seq) + sealed).subrange(0, 8) =~= be64(seq));
                        assert((be64(seq) + sealed).skip(8) =~= sealed);
                    }
                }
                match EncryptedMessage::decrypt(
                    vstd::slice::slice_subrange(message.content.as_slice(), 8, message.content.len()),
                    nonce.as_slice(),
                    key.as_slice(),
                    aad.as_slice(),
                ) {
                    Ok(plain) => plain,
                    Err(e) => {
                        return Err(e);
                    },
                }
            },
            _ => {
                return Err(Error::new("Encryption keys cannot be calculated.", 5003));
            },
        };
        self.incoming_encrypted_counter = self.incoming_encrypted_counter + 1;
        Ok(TLSMessage { version: message.version, record: message.record, content: plain })
    }
}

} // verus!

verus! {

/// What an [`Action`] is as a value.
pub ghost enum ActionSpec {
    Write(Seq<u8>),
    Deliver(Seq<u8>),
    Shutdown,
    Nothing,
}

impl View for Action {
    type V = ActionSpec;

    open spec fn view(&self) -> ActionSpec {
        match *self {
            Action::Write(bytes) => ActionSpec::Write(bytes@),
            Action::Deliver(bytes) => ActionSpec::Deliver(bytes@),
            Action::Shutdown => ActionSpec::Shutdown,
            Action::Nothing => ActionSpec::Nothing,
        }
    }
}

/// The ServerHello that this server sends: TLS 1.2, its random, no session
/// id, the one cipher suite, and `renegotiation_info` with an empty field as
/// the only extension.
pub open spec fn server_hello_spec(server_random: Seq<u8>) -> HandshakeSpec {
    HandshakeSpec::ServerHello {
        version: TLSVersion::TLS1_2,
        random: server_random,
        session_id: None,
        cipher_suite: CipherSuite::TLS_ECDHE_RSA_WITH_AES_128_GCM_SHA256,
        extensions: seq![(65281u16, seq![0u8])],
    }
}

/// The parameters of the key exchange: the named curve x25519 and the
/// public key with its length.
pub open spec fn key_exchange_params(public_key: Seq<u8>) -> Seq<u8> {
    seq![0x03u8, 0x00u8, 0x1du8] + seq![public_key.len() as u8] + public_key
}

/// The ServerKeyExchange message: the parameters, the scheme RSA with
/// SHA-256 and the signature with its length.
pub open spec fn signed_key_exchange(params: Seq<u8>, signature: Seq<u8>) -> Seq<u8> {
    let body = params + seq![0x04u8, 0x01u8] + be16(signature.len() as int) + signature;
    seq![0x0cu8] + be24(body.len() as int) + body
}

/// A handshake message in a record of its own.
pub open spec fn handshake_record(payload: Seq<u8>) -> Seq<u8> {
    record_wire(
        RecordSpec { record: TLSRecord::Handshake, version: TLSVersion::TLS1_2, content: payload },
    )
}

/// The server's ChangeCipherSpec record.
pub open spec fn change_cipher_spec_record() -> Seq<u8> {
    seq![0x14u8, 0x03u8, 0x03u8, 0x00u8, 0x01u8, 0x01u8]
}

/// The four messages that answer a ClientHello: ServerHello, Certificate,
/// ServerKeyExchange, signed over the two randoms and the parameters, and
/// ServerHelloDone. Code 5004 where one does not fit a record, 5003 where the
/// private key cannot sign.
pub open spec fn hello_flight(s: SessionSpec, client_random: Seq<u8>) -> Result<Seq<Seq<u8>>, u16> {
    let hello = server_hello_spec(s.server_random);
    let chain = HandshakeSpec::ServerCertificate { certificates: s.certificates };
    let params = key_exchange_params(s.public_key);
    if !encodable(hello) || handshake_wire(hello).len() > 0xffff || !encodable(chain)
        || handshake_wire(chain).len() > 0xffff {
        Err(5004u16)
    } else {
        match rsa_pkcs1_sha256(s.private_key, client_random + s.server_random + params) {
            None => Err(5003u16),
            Some(signature) => if signature.len() > 0xffff - 44 {
                Err(5004u16)
            } else {
                Ok(
                    seq![
                        handshake_wire(hello),
                        handshake_wire(chain),
                        signed_key_exchange(params, signature),
                        seq![0x0eu8, 0x00u8, 0x00u8, 0x00u8],
                    ],
                )
            },
        }
    }
}

/// The four records of the flight, as one write.
pub open spec fn flight_wire(parts: Seq<Seq<u8>>) -> Seq<u8> {
    handshake_record(parts[0]) + handshake_record(parts[1]) + handshake_record(parts[2])
        + handshake_record(parts[3])
}

/// The step on the client's Finished: its `verify_data` must be what the
/// transcript so far gives (else code 5006); the answer is the server's
/// ChangeCipherSpec and its Finished, protected, as one write.
pub open spec fn finished_step(s: SessionSpec, payload: Seq<u8>, verify_data: Seq<u8>) -> Result<
    (SessionSpec, Seq<u8>),
    u16,
> {
    if s.master_secret is None {
        Err(5003u16)
    } else if verify_data != verify_data_of(
        s.master_secret->0,
        label_client_finished(),
        concat_all(s.transcript),
    ) {
        Err(5006u16)
    } else {
        let seen = s.transcript.push(payload);
        let finished = handshake_wire(
            HandshakeSpec::HandshakeFinished {
                verify_data: verify_data_of(
                    s.master_secret->0,
                    label_server_finished(),
                    concat_all(seen),
                ),
            },
        );
        let record = RecordSpec {
            record: TLSRecord::Handshake,
            version: TLSVersion::TLS1_2,
            content: finished,
        };
        if s.server_write_key is None || s.server_write_iv is None {
            Err(5003u16)
        } else if !s.can_encrypt(record) {
            Err(5004u16)
        } else {
            Ok(
                (
                    SessionSpec {
                        state: HandshakeState::Established,
                        transcript: seen.push(finished),
                        outgoing_encrypted_counter: (s.outgoing_encrypted_counter + 1) as u64,
                        ..s
                    },
                    change_cipher_spec_record() + record_wire(s.encrypted(record)),
                ),
            )
        }
    }
}

/// The handshake as a function from the session and a record, already
/// opened, to the next session and the bytes to write. Anything but the
/// input that the state waits for is a protocol error, code 5001; a version
/// other than TLS 1.2 gives 5005.
pub open spec fn step(s: SessionSpec, r: RecordSpec) -> Result<(SessionSpec, Seq<u8>), u16> {
    if r.version != TLSVersion::TLS1_2 {
        Err(5005u16)
    } else if r.record == TLSRecord::ChangeCipherSpec {
        if s.state != HandshakeState::WaitClientChangeCipherSpec {
            Err(5001u16)
        } else if s.client_random is None || s.client_public_key is None {
            Err(5003u16)
        } else {
            Ok(
                (
                    SessionSpec {
                        state: HandshakeState::WaitClientFinished,
                        is_encrypted: true,
                        ..s.with_keys()
                    },
                    Seq::empty(),
                ),
            )
        }
    } else if r.record == TLSRecord::Handshake {
        match parse_handshake(r.content) {
            Err(code) => Err(code),
            Ok(HandshakeSpec::ClientHello { random, .. }) => {
                if s.state != HandshakeState::WaitClientHello {
                    Err(5001u16)
                } else {
                    match hello_flight(s, random) {
                        Err(code) => Err(code),
                        Ok(parts) => Ok(
                            (
                                SessionSpec {
                                    state: HandshakeState::WaitClientKeyExchange,
                                    client_random: Some(random),
                                    transcript: s.transcript.push(r.content) + parts,
                                    ..s
                                },
                                flight_wire(parts),
                            ),
                        ),
                    }
                }
            },
            Ok(HandshakeSpec::ClientKeyExchange { public_key }) => {
                if s.state != HandshakeState::WaitClientKeyExchange || public_key.len() != 32 {
                    Err(5001u16)
                } else {
                    Ok(
                        (
                            SessionSpec {
                                state: HandshakeState::WaitClientChangeCipherSpec,
                                client_public_key: Some(public_key),
                                transcript: s.transcript.push(r.content),
                                ..s
                            },
                            Seq::empty(),
                        ),
                    )
                }
            },
            Ok(HandshakeSpec::HandshakeFinished { verify_data }) => {
                if s.state != HandshakeState::WaitClientFinished {
                    Err(5001u16)
                } else {
                    finished_step(s, r.content, verify_data)
                }
            },
            Ok(_) => Err(5001u16),
        }
    } else {
        Err(5001u16)
    }
}

/// The bytes of each message of a transcript.
pub open spec fn messages_view(ms: Seq<Vec<u8>>) -> Seq<Seq<u8>> {
    ms.map_values(|m: Vec<u8>| m@)
}

/// Joins the messages of a transcript.
fn concat_messages(messages: &Vec<Vec<u8>>) -> (out: Vec<u8>)
    ensures
        out@ == concat_all(messages_view(messages@)),
{
    let mut out: Vec<u8> = Vec::new();
    let mut i: usize = 0;
    let ghost parts = messages_view(messages@);
    proof {
        assert(parts.take(0) =~= Seq::<Seq<u8>>::empty());
    }
    while i < messages.len()
        invariant
            i <= messages@.len(),
            parts == messages_view(messages@),
            out@ == concat_all(parts.take(i as int)),
        decreases messages@.len() - i,
    {
        proof {
            assert(parts.take(i + 1) =~= parts.take(i as int).push(parts[i as int]));
            lemma_concat_all_push(parts.take(i as int), parts[i as int]);
        }
        push_all(&mut out, messages[i].as_slice());
        i += 1;
    }
    proof {
        assert(parts.take(i as int) =~= parts);
    }
    out
}

/// A handshake message as the bytes of a record of its own.
fn handshake_record_bytes(payload: &Vec<u8>) -> (out: Vec<u8>)
    requires
        payload@.len() <= 0xffff,
    ensures
        out@ == handshake_record(payload@),
{
    let mut out: Vec<u8> = Vec::new();
    out.push(0x16);
    out.push(0x03);
    out.push(0x03);
    push_be16(&mut out, payload.len());
    push_all(&mut out, payload.as_slice());
    proof {
        assert(out@ =~= handshake_record(payload@));
    }
    out
}

impl TLSSession {
    /// The four messages that answer a ClientHello. See [`hello_flight`].
    pub fn hello_flight_messages(&self, client_random: &[u8]) -> (r: Result<Vec<Vec<u8>>, Error>)
        requires
            self@.wf(),
        ensures
            match hello_flight(self@, client_random@) {
                Ok(parts) => r is Ok && messages_view(r->Ok_0@) == parts,
                Err(code) => r is Err && r->Err_0.code == code,
            },
            r matches Ok(parts) ==> parts@.len() == 4 && forall|j: int|
                0 <= j < 4 ==> (#[trigger] parts@[j])@.len() <= 0xffff,
    {
        let hello = HandshakeMessage::ServerHello {
            version: TLSVersion::TLS1_2,
            random: copy_bytes(self.server_random.as_slice()),
            session_id: None,
            cipher_suite: CipherSuite::TLS_ECDHE_RSA_WITH_AES_128_GCM_SHA256,
            extensions: vec![TLSExtension::new(65281, vec![0u8])],
        };
        proof {
            assert(hello@.arrow_ServerHello_extensions() =~= seq![(65281u16, seq![0u8])]) by {
                let es = hello@.arrow_ServerHello_extensions();
                assert(es.len() == 1);
                assert(es[0].1 =~= seq![0u8]);
            }
            assert(hello@ == server_hello_spec(self@.server_random));
        }
        let hello_bytes = hello.get_raw()?;
        if hello_bytes.len() > 0xffff {
            return Err(Error::new("The ServerHello does not fit a record.", 5004));
        }
        let chain_bytes = certificate_message(&self.certificates)?;
        if chain_bytes.len() > 0xffff {
            return Err(Error::new("The certificates do not fit a record.", 5004));
        }
        let mut params: Vec<u8> = Vec::new();
        params.push(0x03);
        params.push(0x00);
        params.push(0x1d);
        params.push(self.ephemeral_pair.public_key.len() as u8);
        push_all(&mut params, self.ephemeral_pair.public_key.as_slice());
        proof {
            assert(params@ =~= key_exchange_params(self@.public_key));
        }
        let mut to_sign: Vec<u8> = copy_bytes(client_random);
        push_all(&mut to_sign, self.server_random.as_slice());
        push_all(&mut to_sign, params.as_slice());
        let signer = RSASignature::new(copy_bytes(self.private_key.as_slice()));
        let signed = signer.sign(DigestAlgorithm::SHA256, to_sign.as_slice())?;
        if signed.data.len() > 0xffff - 44 {
            return Err(Error::new("The signature does not fit a record.", 5004));
        }
        let mut body: Vec<u8> = params;
        body.push(0x04);
        body.push(0x01);
        push_be16(&mut body, signed.data.len());
        push_all(&mut body, signed.data.as_slice());
        let mut exchange: Vec<u8> = Vec::new();
        exchange.push(0x0c);
        push_be24(&mut exchange, body.len());
        push_all(&mut exchange, body.as_slice());
        proof {
            assert(exchange@ =~= signed_key_exchange(key_exchange_params(self@.public_key), signed.data@));
        }
        let done: Vec<u8> = vec![0x0e, 0x00, 0x00, 0x00];
        let mut parts: Vec<Vec<u8>> = Vec::new();
        parts.push(hello_bytes);
        parts.push(chain_bytes);
        parts.push(exchange);
        parts.push(done);
        proof {
            assert(done@ =~= seq![0x0eu8, 0x00u8, 0x00u8, 0x00u8]);
            assert(messages_view(parts@) =~= hello_flight(self@, client_random@)->Ok_0);
        }
        Ok(parts)
    }
}

} // verus!

verus! {

/// What is done with a record once it is opened: a handshake record or a
/// ChangeCipherSpec advances the handshake; a fatal alert, whose first byte
/// is 2, shuts the connection down and any other alert is ignored;
/// application data is delivered once the handshake is over, and is a
/// protocol error before; a heartbeat is ignored.
pub open spec fn dispatch(s: SessionSpec, r: RecordSpec) -> Result<(SessionSpec, ActionSpec), u16> {
    match r.record {
        TLSRecord::Handshake | TLSRecord::ChangeCipherSpec => match step(s, r) {
            Ok((next, out)) => Ok(
                (
                    next,
                    if out.len() == 0 {
                        ActionSpec::Nothing
                    } else {
                        ActionSpec::Write(out)
                    },
                ),
            ),
            Err(code) => Err(code),
        },
        TLSRecord::Alert => Ok(
            (
                s,
                if r.content.len() > 0 && r.content[0] == 2 {
                    ActionSpec::Shutdown
                } else {
                    ActionSpec::Nothing
                },
            ),
        ),
        TLSRecord::Application => if s.state == HandshakeState::Established && s.is_encrypted {
            Ok((s, ActionSpec::Deliver(r.content)))
        } else {
            Err(5001u16)
        },
        TLSRecord::Heartbeat => Ok((s, ActionSpec::Nothing)),
    }
}

/// The session as a function from its state and a received record to the
/// next state and what the connection does. A record of a version other
/// than TLS 1.2 is refused with code 5005. Once the client has changed the
/// cipher spec every record is opened first.
pub open spec fn handle(s: SessionSpec, r: RecordSpec) -> Result<(SessionSpec, ActionSpec), u16> {
    if r.version != TLSVersion::TLS1_2 {
        Err(5005u16)
    } else if s.is_encrypted {
        match s.opened(r) {
            None => Err(s.open_error(r)),
            Some(plain) => dispatch(
                SessionSpec {
                    incoming_encrypted_counter: (s.incoming_encrypted_counter + 1) as u64,
                    ..s
                },
                with_content(r, plain),
            ),
        }
    } else {
        dispatch(s, r)
    }
}

/// Neither sequence counter ever goes back, and each advances by at most
/// one per record.
pub proof fn lemma_counters_monotone(s: SessionSpec, r: RecordSpec)
    requires
        handle(s, r) is Ok,
    ensures
        ({
            let next = handle(s, r)->Ok_0.0;
            &&& s.incoming_encrypted_counter <= next.incoming_encrypted_counter
                <= s.incoming_encrypted_counter + 1
            &&& s.outgoing_encrypted_counter <= next.outgoing_encrypted_counter
                <= s.outgoing_encrypted_counter + 1
        }),
{
}

/// The transcript only grows: what was recorded stays, in order.
pub proof fn lemma_transcript_grows(s: SessionSpec, r: RecordSpec)
    requires
        handle(s, r) is Ok,
    ensures
        ({
            let next = handle(s, r)->Ok_0.0;
            &&& s.transcript.len() <= next.transcript.len()
            &&& next.transcript.take(s.transcript.len() as int) == s.transcript
        }),
{
    let next = handle(s, r)->Ok_0.0;
    assert(next.transcript.take(s.transcript.len() as int) =~= s.transcript);
}

impl TLSSession {
    fn finish(&mut self, payload: Vec<u8>, verify_data: &Vec<u8>) -> (r: Result<Vec<u8>, Error>)
        requires
            old(self)@.wf(),
        ensures
            final(self)@.wf(),
            match finished_step(old(self)@, payload@, verify_data@) {
                Ok((next, out)) => r is Ok && r->Ok_0@ == out && final(self)@ == next,
                Err(code) => r is Err && r->Err_0.code == code && final(self)@ == old(self)@,
            },
    {
        let ghost before = self@;
        let finished = match &self.master_secret {
            None => {
                return Err(Error::new("Encryption keys cannot be calculated.", 5003));
            },
            Some(master) => {
                let mut seen = concat_messages(&self.handshake_messages);
                let hash = DigestAlgorithm::SHA256.digest(seen.as_slice());
                let expected = prf_bytes(
                    master.as_slice(),
                    "client finished".as_bytes(),
                    hash.as_slice(),
                    12,
                );
                if !bytes_equal(verify_data.as_slice(), expected.as_slice()) {
                    return Err(Error::new("The Finished message does not verify.", 5006));
                }
                push_all(&mut seen, payload.as_slice());
                proof {
                    lemma_concat_all_push(before.transcript, payload@);
                }
                let hash = DigestAlgorithm::SHA256.digest(seen.as_slice());
                let verify = prf_bytes(
                    master.as_slice(),
                    "server finished".as_bytes(),
                    hash.as_slice(),
                    12,
                );
                let message = HandshakeMessage::HandshakeFinished { verify_data: verify };
                match message.get_raw() {
                    Ok(bytes) => bytes,
                    Err(e) => {
                        proof {
                            assert(false);
                        }
                        return Err(e);
                    },
                }
            },
        };
        if self.server_write_key.is_none() || self.server_write_iv.is_none() {
            return Err(Error::new("Encryption keys cannot be calculated.", 5003));
        }
        let record = TLSMessage::new(
            TLSRecord::Handshake,
            TLSVersion::TLS1_2,
            copy_bytes(finished.as_slice()),
        );
        let protected = self.encrypt_message(record)?;
        let mut out: Vec<u8> = vec![0x14, 0x03, 0x03, 0x00, 0x01, 0x01];
        proof {
            assert(out@ =~= change_cipher_spec_record());
        }
        let raw = protected.get_raw();
        push_all(&mut out, raw.as_slice());
        self.handshake_messages.push(payload);
        self.handshake_messages.push(finished);
        self.state = HandshakeState::Established;
        proof {
            assert(self@.transcript =~= before.transcript.push(payload@).push(finished@));
        }
        Ok(out)
    }

    fn answer_hello(&mut self, payload: Vec<u8>, random: Vec<u8>) -> (r: Result<Vec<u8>, Error>)
        requires
            old(self)@.wf(),
        ensures
            final(self)@.wf(),
            match hello_flight(old(self)@, random@) {
                Ok(parts) => r is Ok && r->Ok_0@ == flight_wire(parts) && final(self)@ == (SessionSpec {
                    state: HandshakeState::WaitClientKeyExchange,
                    client_random: Some(random@),
                    transcript: old(self)@.transcript.push(payload@) + parts,
                    ..old(self)@
                }),
                Err(code) => r is Err && r->Err_0.code == code && final(self)@ == old(self)@,
            },
    {
        let ghost before = self@;
        let parts = self.hello_flight_messages(random.as_slice())?;
        let ghost flight = messages_view(parts@);
        let mut out: Vec<u8> = handshake_record_bytes(&parts[0]);
        let record = handshake_record_bytes(&parts[1]);
        push_all(&mut out, record.as_slice());
        let record = handshake_record_bytes(&parts[2]);
        push_all(&mut out, record.as_slice());
        let record = handshake_record_bytes(&parts[3]);
        push_all(&mut out, record.as_slice());
        self.handshake_messages.push(payload);
        self.handshake_messages.push(copy_bytes(parts[0].as_slice()));
        self.handshake_messages.push(copy_bytes(parts[1].as_slice()));
        self.handshake_messages.push(copy_bytes(parts[2].as_slice()));
        self.handshake_messages.push(copy_bytes(parts[3].as_slice()));
        self.client_random = Some(random);
        self.state = HandshakeState::WaitClientKeyExchange;
        proof {
            assert(self@.transcript =~= before.transcript.push(payload@) + flight);
        }
        Ok(out)
    }

    /// Advances the handshake by one record that is already opened. See
    /// [`step`]: on an error the session is left as it was.
    pub fn advance_handshake(&mut self, message: TLSMessage) -> (r: Result<Vec<u8>, Error>)
        requires
            old(self)@.wf(),
        ensures
            final(self)@.wf(),
            match step(old(self)@, message@) {
                Ok((next, out)) => r is Ok && r->Ok_0@ == out && final(self)@ == next,
                Err(code) => r is Err && r->Err_0.code == code && final(self)@ == old(self)@,
            },
    {
        let ghost before = self@;
        match message.version {
            TLSVersion::TLS1_2 => {},
            _ => {
                return Err(Error::new("Unsupported TLS version.", 5005));
            },
        }
        match message.record {
            TLSRecord::ChangeCipherSpec => {
                match self.state {
                    HandshakeState::WaitClientChangeCipherSpec => {},
                    _ => {
                        return Err(Error::new("Invalid TLS client message.", 5001));
                    },
                }
                self.calculate_encryption_keys()?;
                self.state = HandshakeState::WaitClientFinished;
                self.is_encrypted = true;
                Ok(Vec::new())
            },
            TLSRecord::Handshake => {
                let parsed = HandshakeMessage::parse(&message.content)?;
                match parsed {
                    HandshakeMessage::ClientHello { random, .. } => {
                        match self.state {
                            HandshakeState::WaitClientHello => {},
                            _ => {
                                return Err(Error::new("Invalid TLS client message.", 5001));
                            },
                        }
                        self.answer_hello(message.content, random)
                    },
                    HandshakeMessage::ClientKeyExchange { public_key } => {
                        match self.state {
                            HandshakeState::WaitClientKeyExchange => {},
                            _ => {
                                return Err(Error::new("Invalid TLS client message.", 5001));
                            },
                        }
                        if public_key.len() != 32 {
                            return Err(Error::new("Invalid TLS client message.", 5001));
                        }
                        self.handshake_messages.push(message.content);
                        self.client_public_key = Some(public_key);
                        self.state = HandshakeState::WaitClientChangeCipherSpec;
                        proof {
                            assert(self@.transcript =~= before.transcript.push(message.content@));
                        }
                        Ok(Vec::new())
                    },
                    HandshakeMessage::HandshakeFinished { verify_data } => {
                        match self.state {
                            HandshakeState::WaitClientFinished => {},
                            _ => {
                                return Err(Error::new("Invalid TLS client message.", 5001));
                            },
                        }
                        self.finish(message.content, &verify_data)
                    },
                    _ => Err(Error::new("Invalid TLS client message.", 5001)),
                }
            },
            _ => Err(Error::new("Invalid TLS client message.", 5001)),
        }
    }

    /// Handles one received record: opens it where the client has changed
    /// the cipher spec, then acts on it. See [`handle`]. On an error the
    /// session is as it was, but for the incoming counter where the record
    /// was opened before it was refused.
    pub fn handle_record(&mut self, message: TLSMessage) -> (r: Result<Action, Error>)
        requires
            old(self)@.wf(),
        ensures
            final(self)@.wf(),
            match handle(old(self)@, message@) {
                Ok((next, action)) => r is Ok && r->Ok_0@ == action && final(self)@ == next,
                Err(code) => r is Err && r->Err_0.code == code,
            },
            r is Err ==> final(self)@ == old(self)@ || final(self)@ == (SessionSpec {
                incoming_encrypted_counter: (old(self)@.incoming_encrypted_counter + 1) as u64,
                ..old(self)@
            }),
    {
        match message.version {
            TLSVersion::TLS1_2 => {},
            _ => {
                return Err(Error::new("Unsupported TLS version.", 5005));
            },
        }
        let opened = if self.is_encrypted {
            self.decrypt_message(message)?
        } else {
            message
        };
        match opened.record {
            TLSRecord::Handshake | TLSRecord::ChangeCipherSpec => {
                let out = self.advance_handshake(opened)?;
                if out.len() == 0 {
                    Ok(Action::Nothing)
                } else {
                    Ok(Action::Write(out))
                }
            },
            TLSRecord::Alert => {
                if opened.content.len() > 0 && opened.content[0] == 2 {
                    Ok(Action::Shutdown)
                } else {
                    Ok(Action::Nothing)
                }
            },
            TLSRecord::Application => {
                let established = self.handshake_finished();
                if established && self.is_encrypted {
                    Ok(Action::Deliver(opened.content))
                } else {
                    Err(Error::new("Invalid TLS client message.", 5001))
                }
            },
            TLSRecord::Heartbeat => Ok(Action::Nothing),
        }
    }
}

} // verus!
