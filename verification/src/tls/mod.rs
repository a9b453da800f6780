use vstd::prelude::*;
use crate::error::Error;
use crate::tls::crypto::ECCurve;

pub mod crypto;
pub mod digest;
pub mod protocol;
pub mod session;
pub mod signature;

verus! {

/// One certificate of the server's chain, DER-encoded.
#[derive(Debug, Clone)]
pub struct Certificate {
    pub raw: Vec<u8>,
}

/// A hello extension: its identifier and its opaque content.
#[derive(Debug, Clone)]
pub struct TLSExtension {
    pub id: u16,
    pub content: Vec<u8>,
}

impl TLSExtension {
    pub fn new(id: u16, content: Vec<u8>) -> (e: TLSExtension)
        ensures
            e.id == id,
            e.content == content,
    {
        TLSExtension { id, content }
    }
}

/// The server's half of a key exchange.
#[derive(Debug, Clone)]
pub enum KeyExchange {
    ECDHE { curve: ECCurve, public_key: Vec<u8> },
}

#[allow(non_camel_case_types)]
#[derive(Debug, Clone, Copy, PartialEq, Eq, Structural)]
pub enum CipherSuite {
    TLS_ECDHE_RSA_WITH_AES_128_GCM_SHA256,
}

impl CipherSuite {
    /// The suite's two-byte identifier on the wire.
    pub fn bytes(&self) -> (b: [u8; 2])
        ensures
            b@ == seq![0xc0u8, 0x2fu8],
    {
        match self {
            CipherSuite::TLS_ECDHE_RSA_WITH_AES_128_GCM_SHA256 => [0xc0, 0x2f],
        }
    }
}

#[allow(non_camel_case_types)]
#[derive(Debug, Clone, Copy, PartialEq, Eq, Structural)]
pub enum TLSVersion {
    TLS1_0,
    TLS1_1,
    TLS1_2,
}

impl TLSVersion {
    /// The two bytes that stand for the version on the wire.
    pub open spec fn wire(self) -> Seq<u8> {
        match self {
            TLSVersion::TLS1_0 => seq![0x03u8, 0x01u8],
            TLSVersion::TLS1_1 => seq![0x03u8, 0x02u8],
            TLSVersion::TLS1_2 => seq![0x03u8, 0x03u8],
        }
    }

    /// Only TLS 1.2 is accepted where a version is used; anything else is
    /// refused with code 5001.
    pub fn from(e: &[u8]) -> (r: Result<TLSVersion, Error>)
        ensures
            r is Ok <==> e@ == seq![0x03u8, 0x03u8],
            r matches Ok(v) ==> v == TLSVersion::TLS1_2,
            r matches Err(err) ==> err.code == 5001,
    {
        if e.len() == 2 && e[0] == 0x03 && e[1] == 0x03 {
            assert(e@ =~= seq![0x03u8, 0x03u8]);
            Ok(TLSVersion::TLS1_2)
        } else {
            Err(Error::new("Invalid TLS version.", 5001))
        }
    }

    pub fn get_value(&self) -> (b: [u8; 2])
        ensures
            b@ == self.wire(),
    {
        match self {
            TLSVersion::TLS1_0 => [0x03, 0x01],
            TLSVersion::TLS1_1 => [0x03, 0x02],
            TLSVersion::TLS1_2 => [0x03, 0x03],
        }
    }
}

/// The content type of a record.
#[derive(Debug, Clone, Copy, PartialEq, Eq, Structural)]
pub enum TLSRecord {
    Handshake,
    ChangeCipherSpec,
    Alert,
    Application,
    Heartbeat,
}

impl TLSRecord {
    /// The content type's byte on the wire.
    pub open spec fn wire(self) -> u8 {
        match self {
            TLSRecord::ChangeCipherSpec => 0x14u8,
            TLSRecord::Alert => 0x15u8,
            TLSRecord::Handshake => 0x16u8,
            TLSRecord::Application => 0x17u8,
            TLSRecord::Heartbeat => 0x18u8,
        }
    }

    /// Returns the assigned numerical value. (ex: 22 - handshake)
    pub fn get_value(&self) -> (b: u8)
        ensures
            b == self.wire(),
    {
        match self {
            TLSRecord::ChangeCipherSpec => 0x14,
            TLSRecord::Alert => 0x15,
            TLSRecord::Handshake => 0x16,
            TLSRecord::Application => 0x17,
            TLSRecord::Heartbeat => 0x18,
        }
    }
}

} // verus!
