use vstd::prelude::*;
use crate::error::Error;
use crate::tls::crypto::ECCurve;
use crate::tls::{Certificate, CipherSuite, KeyExchange, TLSExtension, TLSRecord, TLSVersion};
use crate::utils::{
    be16, be24, concat_all, copy_range, lemma_concat_all_prefix, lemma_concat_all_push, push_all,
    push_be16, push_be24, read_u16, read_u24, u16_at, u24_at,
};

verus! {

/// A record as a value: its content type, its version and its payload.
pub ghost struct RecordSpec {
    pub record: TLSRecord,
    pub version: TLSVersion,
    pub content: Seq<u8>,
}

/// One TLS record: `[type:1][version:2][length:2][payload]` on the wire.
#[derive(Debug)]
pub struct TLSMessage {
    pub version: TLSVersion,
    pub record: TLSRecord,
    pub content: Vec<u8>,
}

impl View for TLSMessage {
    type V = RecordSpec;

    open spec fn view(&self) -> RecordSpec {
        RecordSpec { record: self.record, version: self.version, content: self.content@ }
    }
}

/// The records that a vector of messages stands for.
pub open spec fn records_view(messages: Seq<TLSMessage>) -> Seq<RecordSpec> {
    messages.map_values(|m: TLSMessage| m@)
}

/// The bytes of one record on the wire.
pub open spec fn record_wire(r: RecordSpec) -> Seq<u8> {
    seq![r.record.wire()] + r.version.wire() + be16(r.content.len() as int) + r.content
}

/// The bytes of several records on the wire, one after the other.
pub open spec fn records_wire(rs: Seq<RecordSpec>) -> Seq<u8>
    decreases rs.len(),
{
    if rs.len() == 0 {
        Seq::empty()
    } else {
        record_wire(rs[0]) + records_wire(rs.skip(1))
    }
}

/// The content type that a byte names, if any.
pub open spec fn record_type(b: u8) -> Option<TLSRecord> {
    if b == 0x14 {
        Some(TLSRecord::ChangeCipherSpec)
    } else if b == 0x15 {
        Some(TLSRecord::Alert)
    } else if b == 0x16 {
        Some(TLSRecord::Handshake)
    } else if b == 0x17 {
        Some(TLSRecord::Application)
    } else if b == 0x18 {
        Some(TLSRecord::Heartbeat)
    } else {
        None
    }
}

/// The version that two bytes name, if any.
pub open spec fn record_version(hi: u8, lo: u8) -> Option<TLSVersion> {
    if hi == 0x03 && lo == 0x01 {
        Some(TLSVersion::TLS1_0)
    } else if hi == 0x03 && lo == 0x02 {
        Some(TLSVersion::TLS1_1)
    } else if hi == 0x03 && lo == 0x03 {
        Some(TLSVersion::TLS1_2)
    } else {
        None
    }
}

/// The result of reading a further run of records in front of `rest`.
pub open spec fn after_records(done: Seq<RecordSpec>, rest: Result<Seq<RecordSpec>, u16>) -> Result<
    Seq<RecordSpec>,
    u16,
> {
    match rest {
        Ok(more) => Ok(done + more),
        Err(code) => Err(code),
    }
}

/// Reads `data` as a run of whole records. An unknown content type, a
/// header cut short or a payload cut short gives code 5001, an unknown
/// version 5005.
pub open spec fn parse_records(data: Seq<u8>) -> Result<Seq<RecordSpec>, u16>
    decreases data.len(),
{
    if data.len() == 0 {
        Ok(Seq::empty())
    } else if record_type(data[0]) is None {
        Err(5001u16)
    } else if data.len() < 5 {
        Err(5001u16)
    } else if record_version(data[1], data[2]) is None {
        Err(5005u16)
    } else if data.len() < 5 + u16_at(data, 3) {
        Err(5001u16)
    } else {
        let n = u16_at(data, 3);
        let head = RecordSpec {
            record: record_type(data[0])->0,
            version: record_version(data[1], data[2])->0,
            content: data.subrange(5, 5 + n),
        };
        after_records(seq![head], parse_records(data.skip(5 + n)))
    }
}

impl TLSMessage {
    pub fn new(record: TLSRecord, version: TLSVersion, content: Vec<u8>) -> (m: TLSMessage)
        ensures
            m.record == record,
            m.version == version,
            m.content == content,
    {
        TLSMessage { record, content, version }
    }

    /// The record's bytes on the wire, which are read back as the record. The
    /// length field has two bytes, so the payload has at most 65535.
    pub fn get_raw(&self) -> (raw: Vec<u8>)
        requires
            self.content@.len() <= 0xffff,
        ensures
            raw@ == record_wire(self@),
            parse_records(raw@) == Ok::<Seq<RecordSpec>, u16>(seq![self@]),
    {
        proof {
            lemma_record_decodes(self@);
        }
        let mut raw: Vec<u8> = Vec::new();
        raw.push(self.record.get_value());
        let version = self.version.get_value();
        raw.push(version[0]);
        raw.push(version[1]);
        push_be16(&mut raw, self.content.len());
        push_all(&mut raw, self.content.as_slice());
        proof {
            assert(raw@ =~= record_wire(self@));
        }
        raw
    }
}

fn record_of(b: u8) -> (r: Option<TLSRecord>)
    ensures
        r == record_type(b),
{
    if b == 0x14 {
        Some(TLSRecord::ChangeCipherSpec)
    } else if b == 0x15 {
        Some(TLSRecord::Alert)
    } else if b == 0x16 {
        Some(TLSRecord::Handshake)
    } else if b == 0x17 {
        Some(TLSRecord::Application)
    } else if b == 0x18 {
        Some(TLSRecord::Heartbeat)
    } else {
        None
    }
}

fn version_of(hi: u8, lo: u8) -> (r: Option<TLSVersion>)
    ensures
        r == record_version(hi, lo),
{
    if hi == 0x03 && lo == 0x01 {
        Some(TLSVersion::TLS1_0)
    } else if hi == 0x03 && lo == 0x02 {
        Some(TLSVersion::TLS1_1)
    } else if hi == 0x03 && lo == 0x03 {
        Some(TLSVersion::TLS1_2)
    } else {
        None
    }
}

/// Splits the bytes of one read into records. Nothing is accepted in part:
/// an empty input, an unknown content type and a record cut short give code
/// 5001, an unknown version 5005.
pub fn parse_tls_messages(data: &[u8]) -> (r: Result<Vec<TLSMessage>, Error>)
    ensures
        data@.len() == 0 ==> r is Err && r->Err_0.code == 5001,
        data@.len() > 0 ==> match parse_records(data@) {
            Ok(records) => r is Ok && records_view(r->Ok_0@) == records,
            Err(code) => r is Err && r->Err_0.code == code,
        },
{
    if data.len() == 0 {
        return Err(Error::new("Invalid message.", 5001));
    }
    let mut messages: Vec<TLSMessage> = Vec::new();
    let mut cursor: usize = 0;
    proof {
        assert(data@.skip(0) =~= data@);
        assert(records_view(messages@) =~= Seq::<RecordSpec>::empty());
        if let Ok(more) = parse_records(data@) {
            assert(Seq::<RecordSpec>::empty() + more =~= more);
        }
    }
    while cursor < data.len()
        invariant
            cursor <= data@.len(),
            parse_records(data@) == after_records(
                records_view(messages@),
                parse_records(data@.skip(cursor as int)),
            ),
        decreases data@.len() - cursor,
    {
        let ghost rest = data@.skip(cursor as int);
        let record = match record_of(data[cursor]) {
            Some(record) => record,
            None => {
                return Err(Error::new("Invalid message.", 5001));
            },
        };
        if data.len() - cursor < 5 {
            return Err(Error::new("Invalid message.", 5001));
        }
        let version = match version_of(data[cursor + 1], data[cursor + 2]) {
            Some(version) => version,
            None => {
                return Err(Error::new("Unsupported TLS version.", 5005));
            },
        };
        let length = read_u16(data, cursor + 3);
        proof {
            assert(u16_at(rest, 3) == u16_at(data@, cursor + 3));
        }
        if data.len() - cursor - 5 < length {
            return Err(Error::new("Invalid message.", 5001));
        }
        let content = copy_range(data, cursor + 5, cursor + 5 + length);
        let message = TLSMessage { record, version, content };
        proof {
            assert(rest.subrange(5, 5 + length) =~= data@.subrange(cursor + 5, cursor + 5 + length));
            assert(rest.skip(5 + length) =~= data@.skip(cursor + 5 + length));
            let before = records_view(messages@);
            let after = records_view(messages@.push(message));
            assert(after =~= before + seq![message@]);
            match parse_records(data@.skip(cursor + 5 + length)) {
                Ok(more) => {
                    assert(before + (seq![message@] + more) =~= after + more);
                },
                Err(_) => {},
            }
        }
        messages.push(message);
        cursor = cursor + 5 + length;
    }
    proof {
        assert(data@.skip(cursor as int) =~= Seq::<u8>::empty());
        assert(records_view(messages@) + Seq::<RecordSpec>::empty() =~= records_view(messages@));
    }
    Ok(messages)
}

/// A record of any of the five content types, with a payload of at most
/// 65535 bytes, is read back from its bytes as itself.
pub proof fn lemma_record_decodes(r: RecordSpec)
    requires
        r.content.len() <= 0xffff,
    ensures
        parse_records(record_wire(r)) == Ok::<Seq<RecordSpec>, u16>(seq![r]),
{
    reveal_with_fuel(parse_records, 2);
    let data = record_wire(r);
    let n = r.content.len() as int;
    assert(data[0] == r.record.wire());
    assert(data[1] == r.version.wire()[0]);
    assert(data[2] == r.version.wire()[1]);
    assert(data[3] == be16(n)[0]);
    assert(data[4] == be16(n)[1]);
    assert(u16_at(data, 3) == n);
    assert(data.subrange(5, 5 + n) =~= r.content);
    assert(data.skip(5 + n) =~= Seq::<u8>::empty());
    assert(record_type(data[0]) == Some(r.record));
    assert(record_version(data[1], data[2]) == Some(r.version));
    assert(seq![r] + Seq::<RecordSpec>::empty() =~= seq![r]);
}

/// Whatever is read as records is, written out again, the bytes that were
/// read.
pub proof fn lemma_records_reencode(data: Seq<u8>)
    requires
        parse_records(data) is Ok,
    ensures
        records_wire(parse_records(data)->Ok_0) == data,
    decreases data.len(),
{
    if data.len() == 0 {
    } else {
        let n = u16_at(data, 3);
        let rest = data.skip(5 + n);
        lemma_records_reencode(rest);
        let head = RecordSpec {
            record: record_type(data[0])->0,
            version: record_version(data[1], data[2])->0,
            content: data.subrange(5, 5 + n),
        };
        let more = parse_records(rest)->Ok_0;
        let all = seq![head] + more;
        assert(all[0] == head);
        assert(all.skip(1) =~= more);
        assert(record_wire(head) =~= data.subrange(0, 5 + n)) by {
            let w = record_wire(head);
            assert(w.len() == 5 + n);
            assert(w[0] == data[0]);
            assert(w[1] == data[1]);
            assert(w[2] == data[2]);
            assert(w[3] == data[3]);
            assert(w[4] == data[4]);
        }
        assert(data.subrange(0, 5 + n) + rest =~= data);
    }
}

} // verus!

verus! {

/// A handshake message as a value.
pub ghost enum HandshakeSpec {
    ClientHello {
        version: TLSVersion,
        random: Seq<u8>,
        session_id: Option<Seq<u8>>,
        cipher_suites: Seq<u16>,
        extensions: Seq<(u16, Seq<u8>)>,
    },
    ClientKeyExchange { public_key: Seq<u8> },
    ServerHello {
        version: TLSVersion,
        random: Seq<u8>,
        session_id: Option<Seq<u8>>,
        cipher_suite: CipherSuite,
        extensions: Seq<(u16, Seq<u8>)>,
    },
    ServerCertificate { certificates: Seq<Seq<u8>> },
    ServerKeyExchange { curve: ECCurve, public_key: Seq<u8> },
    ServerHelloDone,
    HandshakeFinished { verify_data: Seq<u8> },
}

/// The handshake messages that the server reads and writes.
#[derive(Debug, Clone)]
pub enum HandshakeMessage {
    // Client messages
    ClientHello {
        version: TLSVersion,
        random: Vec<u8>,
        session_id: Option<Vec<u8>>,
        cipher_suites: Vec<u16>,
        extensions: Vec<TLSExtension>,
    },
    ClientKeyExchange { public_key: Vec<u8> },
    // Server messages
    ServerHello {
        version: TLSVersion,
        random: Vec<u8>,
        session_id: Option<Vec<u8>>,
        cipher_suite: CipherSuite,
        extensions: Vec<TLSExtension>,
    },
    ServerCertificate { certificates: Vec<Certificate> },
    ServerKeyExchange { key_exchange: KeyExchange },
    ServerHelloDone,
    // Shared messages
    HandshakeFinished { verify_data: Vec<u8> },
}

pub open spec fn extensions_view(es: Seq<TLSExtension>) -> Seq<(u16, Seq<u8>)> {
    es.map_values(|e: TLSExtension| (e.id, e.content@))
}

pub open spec fn certificates_view(cs: Seq<Certificate>) -> Seq<Seq<u8>> {
    cs.map_values(|c: Certificate| c.raw@)
}

pub open spec fn session_id_view(id: Option<Vec<u8>>) -> Option<Seq<u8>> {
    match id {
        Some(bytes) => Some(bytes@),
        None => None,
    }
}

impl View for HandshakeMessage {
    type V = HandshakeSpec;

    open spec fn view(&self) -> HandshakeSpec {
        match *self {
            HandshakeMessage::ClientHello {
                version,
                random,
                session_id,
                cipher_suites,
                extensions,
            } => HandshakeSpec::ClientHello {
                version,
                random: random@,
                session_id: session_id_view(session_id),
                cipher_suites: cipher_suites@,
                extensions: extensions_view(extensions@),
            },
            HandshakeMessage::ClientKeyExchange { public_key } => HandshakeSpec::ClientKeyExchange {
                public_key: public_key@,
            },
            HandshakeMessage::ServerHello {
                version,
                random,
                session_id,
                cipher_suite,
                extensions,
            } => HandshakeSpec::ServerHello {
                version,
                random: random@,
                session_id: session_id_view(session_id),
                cipher_suite,
                extensions: extensions_view(extensions@),
            },
            HandshakeMessage::ServerCertificate { certificates } => HandshakeSpec::ServerCertificate {
                certificates: certificates_view(certificates@),
            },
            HandshakeMessage::ServerKeyExchange {
                key_exchange: KeyExchange::ECDHE { curve, public_key },
            } => HandshakeSpec::ServerKeyExchange { curve, public_key: public_key@ },
            HandshakeMessage::ServerHelloDone => HandshakeSpec::ServerHelloDone,
            HandshakeMessage::HandshakeFinished { verify_data } => HandshakeSpec::HandshakeFinished {
                verify_data: verify_data@,
            },
        }
    }
}

/// The cipher suites that a run of byte pairs lists.
pub open spec fn suites_of(bytes: Seq<u8>) -> Seq<u16> {
    Seq::new((bytes.len() / 2) as nat, |i: int| u16_at(bytes, 2 * i) as u16)
}

/// The result of reading further extensions in front of `rest`.
pub open spec fn after_extensions(
    done: Seq<(u16, Seq<u8>)>,
    rest: Option<Seq<(u16, Seq<u8>)>>,
) -> Option<Seq<(u16, Seq<u8>)>> {
    match rest {
        Some(more) => Some(done + more),
        None => None,
    }
}

/// Reads a run of extensions, each `[id:2][length:2][content]`; `None`
/// where one is cut short.
pub open spec fn parse_extensions(bytes: Seq<u8>) -> Option<Seq<(u16, Seq<u8>)>>
    decreases bytes.len(),
{
    if bytes.len() == 0 {
        Some(Seq::empty())
    } else if bytes.len() < 4 {
        None
    } else if bytes.len() < 4 + u16_at(bytes, 2) {
        None
    } else {
        let n = u16_at(bytes, 2);
        after_extensions(
            seq![(u16_at(bytes, 0) as u16, bytes.subrange(4, 4 + n))],
            parse_extensions(bytes.skip(4 + n)),
        )
    }
}

/// Reads the body of a ClientHello: version, random, session id, cipher
/// suites, compression methods and, where anything follows, extensions.
pub open spec fn parse_client_hello(body: Seq<u8>) -> Result<HandshakeSpec, u16> {
    if body.len() < 35 {
        Err(5001u16)
    } else if !(body[0] == 0x03 && body[1] == 0x03) {
        Err(5001u16)
    } else {
        let sid_len = body[34] as int;
        let c = 35 + sid_len;
        if body.len() < c + 2 {
            Err(5001u16)
        } else {
            let cs_len = u16_at(body, c);
            if cs_len % 2 != 0 || body.len() < c + 2 + cs_len + 1 {
                Err(5001u16)
            } else {
                let e = c + 2 + cs_len + 1 + body[c + 2 + cs_len] as int;
                let session_id = if sid_len > 0 {
                    Some(body.subrange(35, c))
                } else {
                    None
                };
                let cipher_suites = suites_of(body.subrange(c + 2, c + 2 + cs_len));
                if body.len() < e {
                    Err(5001u16)
                } else if body.len() == e {
                    Ok(
                        HandshakeSpec::ClientHello {
                            version: TLSVersion::TLS1_2,
                            random: body.subrange(2, 34),
                            session_id,
                            cipher_suites,
                            extensions: Seq::empty(),
                        },
                    )
                } else if body.len() < e + 2 || body.len() != e + 2 + u16_at(body, e) {
                    Err(5001u16)
                } else {
                    match parse_extensions(body.skip(e + 2)) {
                        Some(extensions) => Ok(
                            HandshakeSpec::ClientHello {
                                version: TLSVersion::TLS1_2,
                                random: body.subrange(2, 34),
                                session_id,
                                cipher_suites,
                                extensions,
                            },
                        ),
                        None => Err(5001u16),
                    }
                }
            }
        }
    }
}

/// Reads one handshake message, `[type:1][length:3][body]`, of the kinds a
/// client sends. The length must be that of the body: no message is accepted
/// in part. A message that is cut short or malformed gives code 5001, a
/// type that the server does not read 5002.
pub open spec fn parse_handshake(data: Seq<u8>) -> Result<HandshakeSpec, u16> {
    if data.len() < 4 {
        Err(5001u16)
    } else if data[0] != 1 && data[0] != 16 && data[0] != 20 {
        Err(5002u16)
    } else if data.len() != 4 + u24_at(data, 1) {
        Err(5001u16)
    } else {
        let body = data.skip(4);
        if data[0] == 1 {
            parse_client_hello(body)
        } else if data[0] == 16 {
            if body.len() >= 1 && body.len() == 1 + body[0] {
                Ok(HandshakeSpec::ClientKeyExchange { public_key: body.skip(1) })
            } else {
                Err(5001u16)
            }
        } else {
            Ok(HandshakeSpec::HandshakeFinished { verify_data: body })
        }
    }
}

/// One extension on the wire.
pub open spec fn extension_wire(e: (u16, Seq<u8>)) -> Seq<u8> {
    be16(e.0 as int) + be16(e.1.len() as int) + e.1
}

/// A run of extensions on the wire.
pub open spec fn extensions_wire(es: Seq<(u16, Seq<u8>)>) -> Seq<u8> {
    concat_all(es.map_values(|e: (u16, Seq<u8>)| extension_wire(e)))
}

/// One certificate on the wire.
pub open spec fn certificate_wire(c: Seq<u8>) -> Seq<u8> {
    be24(c.len() as int) + c
}

/// A chain of certificates on the wire.
pub open spec fn certificates_wire(cs: Seq<Seq<u8>>) -> Seq<u8> {
    concat_all(cs.map_values(|c: Seq<u8>| certificate_wire(c)))
}

/// The length of a session id that may be absent.
pub open spec fn session_id_bytes(id: Option<Seq<u8>>) -> Seq<u8> {
    match id {
        Some(bytes) => bytes,
        None => Seq::empty(),
    }
}

/// The type byte of a handshake message.
pub open spec fn handshake_type(m: HandshakeSpec) -> u8 {
    match m {
        HandshakeSpec::ClientHello { .. } => 0x01u8,
        HandshakeSpec::ServerHello { .. } => 0x02u8,
        HandshakeSpec::ServerCertificate { .. } => 0x0bu8,
        HandshakeSpec::ServerKeyExchange { .. } => 0x0cu8,
        HandshakeSpec::ServerHelloDone => 0x0eu8,
        HandshakeSpec::ClientKeyExchange { .. } => 0x10u8,
        HandshakeSpec::HandshakeFinished { .. } => 0x14u8,
    }
}

/// The body of a message that the server writes; a message that only a
/// client writes has none.
pub open spec fn handshake_body(m: HandshakeSpec) -> Seq<u8> {
    match m {
        HandshakeSpec::ServerHello { version, random, session_id, cipher_suite, extensions } => {
            version.wire() + random + seq![session_id_bytes(session_id).len() as u8]
                + session_id_bytes(session_id) + seq![0xc0u8, 0x2fu8] + seq![0x00u8] + be16(
                extensions_wire(extensions).len() as int,
            ) + extensions_wire(extensions)
        },
        HandshakeSpec::ServerCertificate { certificates } => {
            be24(certificates_wire(certificates).len() as int) + certificates_wire(certificates)
        },
        HandshakeSpec::ServerKeyExchange { curve, public_key } => {
            seq![0x03u8, 0x00u8, 0x1du8] + seq![public_key.len() as u8] + public_key
        },
        HandshakeSpec::HandshakeFinished { verify_data } => verify_data,
        _ => Seq::empty(),
    }
}

/// Whether every length of the message fits the field that carries it.
pub open spec fn encodable(m: HandshakeSpec) -> bool {
    match m {
        HandshakeSpec::ServerHello { version, random, session_id, cipher_suite, extensions } => {
            &&& session_id_bytes(session_id).len() <= 0xff
            &&& forall|i: int| 0 <= i < extensions.len() ==> (#[trigger] extensions[i]).1.len() <= 0xffff
            &&& extensions_wire(extensions).len() <= 0xffff
            &&& handshake_body(m).len() <= 0xff_ffff
        },
        HandshakeSpec::ServerCertificate { certificates } => {
            &&& forall|i: int| 0 <= i < certificates.len() ==> (#[trigger] certificates[i]).len() <= 0xff_ffff
            &&& handshake_body(m).len() <= 0xff_ffff
        },
        HandshakeSpec::ServerKeyExchange { curve, public_key } => public_key.len() <= 0xff,
        HandshakeSpec::HandshakeFinished { verify_data } => verify_data.len() <= 0xff_ffff,
        _ => true,
    }
}

/// The message on the wire: `[type:1][length:3][body]`, the length being
/// that of the body. A message that only a client writes has no bytes.
pub open spec fn handshake_wire(m: HandshakeSpec) -> Seq<u8> {
    match m {
        HandshakeSpec::ClientHello { .. } => Seq::empty(),
        HandshakeSpec::ClientKeyExchange { .. } => Seq::empty(),
        _ => seq![handshake_type(m)] + be24(handshake_body(m).len() as int) + handshake_body(m),
    }
}

fn parse_suites(bytes: &[u8]) -> (r: Vec<u16>)
    requires
        bytes@.len() % 2 == 0,
    ensures
        r@ == suites_of(bytes@),
{
    let mut suites: Vec<u16> = Vec::new();
    let mut i: usize = 0;
    while i < bytes.len()
        invariant
            i <= bytes@.len(),
            i % 2 == 0,
            bytes@.len() % 2 == 0,
            suites@.len() == i / 2,
            forall|j: int| 0 <= j < suites@.len() ==> suites@[j] == u16_at(bytes@, 2 * j) as u16,
        decreases bytes@.len() - i,
    {
        let suite: u16 = bytes[i] as u16 * 256 + bytes[i + 1] as u16;
        suites.push(suite);
        i += 2;
    }
    proof {
        assert(suites@ =~= suites_of(bytes@));
    }
    suites
}

fn parse_extension_list(bytes: &[u8]) -> (r: Option<Vec<TLSExtension>>)
    ensures
        match parse_extensions(bytes@) {
            Some(es) => r is Some && extensions_view(r->0@) == es,
            None => r is None,
        },
{
    let mut extensions: Vec<TLSExtension> = Vec::new();
    let mut i: usize = 0;
    proof {
        assert(bytes@.skip(0) =~= bytes@);
        assert(extensions_view(extensions@) =~= Seq::<(u16, Seq<u8>)>::empty());
        if let Some(more) = parse_extensions(bytes@) {
            assert(Seq::<(u16, Seq<u8>)>::empty() + more =~= more);
        }
    }
    while i < bytes.len()
        invariant
            i <= bytes@.len(),
            parse_extensions(bytes@) == after_extensions(
                extensions_view(extensions@),
                parse_extensions(bytes@.skip(i as int)),
            ),
        decreases bytes@.len() - i,
    {
        let ghost rest = bytes@.skip(i as int);
        if bytes.len() - i < 4 {
            return None;
        }
        let id = read_u16(bytes, i);
        let length = read_u16(bytes, i + 2);
        proof {
            assert(u16_at(rest, 0) == u16_at(bytes@, i as int));
            assert(u16_at(rest, 2) == u16_at(bytes@, i + 2));
        }
        if bytes.len() - i - 4 < length {
            return None;
        }
        let extension = TLSExtension::new(id as u16, copy_range(bytes, i + 4, i + 4 + length));
        proof {
            assert(rest.subrange(4, 4 + length) =~= bytes@.subrange(i + 4, i + 4 + length));
            assert(rest.skip(4 + length) =~= bytes@.skip(i + 4 + length));
            let before = extensions_view(extensions@);
            let one = (extension.id, extension.content@);
            let after = extensions_view(extensions@.push(extension));
            assert(after =~= before + seq![one]);
            match parse_extensions(bytes@.skip(i + 4 + length)) {
                Some(more) => {
                    assert(before + (seq![one] + more) =~= after + more);
                },
                None => {},
            }
        }
        extensions.push(extension);
        i = i + 4 + length;
    }
    proof {
        assert(bytes@.skip(i as int) =~= Seq::<u8>::empty());
        assert(extensions_view(extensions@) + Seq::<(u16, Seq<u8>)>::empty() =~= extensions_view(
            extensions@,
        ));
    }
    Some(extensions)
}

fn parse_hello(body: &[u8]) -> (r: Result<HandshakeMessage, Error>)
    ensures
        match parse_client_hello(body@) {
            Ok(m) => r is Ok && r->Ok_0@ == m,
            Err(code) => r is Err && r->Err_0.code == code,
        },
{
    if body.len() < 35 {
        return Err(Error::new("Invalid ClientHello message", 5001));
    }
    let version = match TLSVersion::from(vstd::slice::slice_subrange(body, 0, 2)) {
        Ok(version) => version,
        Err(e) => {
            proof {
                assert(body@.subrange(0, 2) =~= seq![body@[0], body@[1]]);
                assert(seq![0x03u8, 0x03u8][0] == 0x03u8 && seq![0x03u8, 0x03u8][1] == 0x03u8);
            }
            return Err(e);
        },
    };
    proof {
        assert(body@.subrange(0, 2)[0] == body@[0] && body@.subrange(0, 2)[1] == body@[1]);
    }
    let random = copy_range(body, 2, 34);
    let sid_len: usize = body[34] as usize;
    let c: usize = 35 + sid_len;
    if body.len() < c + 2 {
        return Err(Error::new("Invalid ClientHello message", 5001));
    }
    let session_id = if sid_len > 0 {
        Some(copy_range(body, 35, c))
    } else {
        None
    };
    let cs_len = read_u16(body, c);
    if cs_len % 2 != 0 || body.len() < c + 2 + cs_len + 1 {
        return Err(Error::new("Invalid ClientHello message", 5001));
    }
    let cipher_suites = parse_suites(vstd::slice::slice_subrange(body, c + 2, c + 2 + cs_len));
    let e: usize = c + 2 + cs_len + 1 + body[c + 2 + cs_len] as usize;
    if body.len() < e {
        return Err(Error::new("Invalid ClientHello message", 5001));
    }
    if body.len() == e {
        let extensions: Vec<TLSExtension> = Vec::new();
        proof {
            assert(extensions_view(extensions@) =~= Seq::<(u16, Seq<u8>)>::empty());
        }
        return Ok(
            HandshakeMessage::ClientHello { version, random, session_id, cipher_suites, extensions },
        );
    }
    if body.len() < e + 2 {
        return Err(Error::new("Invalid ClientHello message", 5001));
    }
    let ext_len = read_u16(body, e);
    if body.len() - e - 2 != ext_len {
        return Err(Error::new("Invalid ClientHello message", 5001));
    }
    proof {
        assert(body@.subrange(e + 2, body@.len() as int) =~= body@.skip(e + 2));
    }
    match parse_extension_list(vstd::slice::slice_subrange(body, e + 2, body.len())) {
        Some(extensions) => Ok(
            HandshakeMessage::ClientHello { version, random, session_id, cipher_suites, extensions },
        ),
        None => Err(Error::new("Invalid ClientHello message", 5001)),
    }
}

fn encode_extensions(extensions: &Vec<TLSExtension>) -> (r: Option<Vec<u8>>)
    ensures
        r is Some <==> (forall|i: int|
            0 <= i < extensions@.len() ==> (#[trigger] extensions_view(extensions@)[i]).1.len()
                <= 0xffff) && extensions_wire(extensions_view(extensions@)).len() <= 0xffff,
        r matches Some(bytes) ==> bytes@ == extensions_wire(extensions_view(extensions@)),
{
    let ghost all = extensions_view(extensions@);
    let ghost parts = all.map_values(|e: (u16, Seq<u8>)| extension_wire(e));
    let mut out: Vec<u8> = Vec::new();
    let mut i: usize = 0;
    proof {
        assert(parts.take(0) =~= Seq::<Seq<u8>>::empty());
    }
    while i < extensions.len()
        invariant
            i <= extensions@.len(),
            all == extensions_view(extensions@),
            parts == all.map_values(|e: (u16, Seq<u8>)| extension_wire(e)),
            out@ == concat_all(parts.take(i as int)),
            out@.len() <= 0xffff,
            forall|j: int| 0 <= j < i ==> (#[trigger] all[j]).1.len() <= 0xffff,
        decreases extensions@.len() - i,
    {
        let extension = &extensions[i];
        proof {
            assert(all[i as int] == (extension.id, extension.content@));
            assert(parts.take(i + 1) =~= parts.take(i as int).push(parts[i as int]));
            lemma_concat_all_push(parts.take(i as int), parts[i as int]);
            lemma_concat_all_prefix(parts, i + 1);
        }
        if extension.content.len() > 0xffff {
            return None;
        }
        if 0xffff - out.len() < 4 + extension.content.len() {
            return None;
        }
        push_be16(&mut out, extension.id as usize);
        push_be16(&mut out, extension.content.len());
        push_all(&mut out, extension.content.as_slice());
        proof {
            assert(out@ =~= concat_all(parts.take(i as int)) + extension_wire(all[i as int]));
        }
        i += 1;
    }
    proof {
        assert(parts.take(i as int) =~= parts);
    }
    Some(out)
}

fn encode_certificates(certificates: &Vec<Certificate>) -> (r: Option<Vec<u8>>)
    ensures
        r is Some <==> (forall|i: int|
            0 <= i < certificates@.len() ==> (#[trigger] certificates_view(certificates@)[i]).len()
                <= 0xff_ffff) && certificates_wire(certificates_view(certificates@)).len() + 3
            <= 0xff_ffff,
        r matches Some(bytes) ==> bytes@ == certificates_wire(certificates_view(certificates@)),
{
    let ghost all = certificates_view(certificates@);
    let ghost parts = all.map_values(|c: Seq<u8>| certificate_wire(c));
    let mut out: Vec<u8> = Vec::new();
    let mut i: usize = 0;
    proof {
        assert(parts.take(0) =~= Seq::<Seq<u8>>::empty());
    }
    while i < certificates.len()
        invariant
            i <= certificates@.len(),
            all == certificates_view(certificates@),
            parts == all.map_values(|c: Seq<u8>| certificate_wire(c)),
            out@ == concat_all(parts.take(i as int)),
            out@.len() + 3 <= 0xff_ffff,
            forall|j: int| 0 <= j < i ==> (#[trigger] all[j]).len() <= 0xff_ffff,
        decreases certificates@.len() - i,
    {
        let certificate = &certificates[i];
        proof {
            assert(all[i as int] == certificate.raw@);
            assert(parts.take(i + 1) =~= parts.take(i as int).push(parts[i as int]));
            lemma_concat_all_push(parts.take(i as int), parts[i as int]);
            lemma_concat_all_prefix(parts, i + 1);
        }
        if certificate.raw.len() > 0xff_ffff {
            return None;
        }
        if 0xff_ffff - 3 - out.len() < 3 + certificate.raw.len() {
            return None;
        }
        push_be24(&mut out, certificate.raw.len());
        push_all(&mut out, certificate.raw.as_slice());
        proof {
            assert(out@ =~= concat_all(parts.take(i as int)) + certificate_wire(all[i as int]));
        }
        i += 1;
    }
    proof {
        assert(parts.take(i as int) =~= parts);
    }
    Some(out)
}

/// Puts the type byte and the three-byte length in front of a body.
fn frame(kind: u8, body: &Vec<u8>) -> (out: Vec<u8>)
    requires
        body@.len() <= 0xff_ffff,
    ensures
        out@ == seq![kind] + be24(body@.len() as int) + body@,
{
    let mut out: Vec<u8> = Vec::new();
    out.push(kind);
    push_be24(&mut out, body.len());
    push_all(&mut out, body.as_slice());
    proof {
        assert(out@ =~= seq![kind] + be24(body@.len() as int) + body@);
    }
    out
}

/// The Certificate message for a chain. Code 5004 where a length does not
/// fit its field.
pub fn certificate_message(certificates: &Vec<Certificate>) -> (r: Result<Vec<u8>, Error>)
    ensures
        r is Ok <==> encodable(
            HandshakeSpec::ServerCertificate { certificates: certificates_view(certificates@) },
        ),
        r matches Ok(bytes) ==> bytes@ == handshake_wire(
            HandshakeSpec::ServerCertificate { certificates: certificates_view(certificates@) },
        ),
        r matches Err(e) ==> e.code == 5004,
{
    let encoded = match encode_certificates(certificates) {
        Some(encoded) => encoded,
        None => {
            return Err(Error::new("Provided certificates are too long.", 5004));
        },
    };
    let mut body: Vec<u8> = Vec::new();
    push_be24(&mut body, encoded.len());
    push_all(&mut body, encoded.as_slice());
    proof {
        assert(body@ =~= handshake_body(
            HandshakeSpec::ServerCertificate { certificates: certificates_view(certificates@) },
        ));
    }
    Ok(frame(0x0b, &body))
}

impl HandshakeMessage {
    /// Reads one handshake message of a client. See [`parse_handshake`].
    pub fn parse(data: &Vec<u8>) -> (r: Result<HandshakeMessage, Error>)
        ensures
            match parse_handshake(data@) {
                Ok(m) => r is Ok && r->Ok_0@ == m,
                Err(code) => r is Err && r->Err_0.code == code,
            },
    {
        if data.len() < 4 {
            return Err(Error::new("Invalid message.", 5001));
        }
        let kind: u8 = data[0];
        if kind != 1 && kind != 16 && kind != 20 {
            return Err(Error::new("Unknown message type.", 5002));
        }
        let length = read_u24(data.as_slice(), 1);
        if data.len() - 4 != length {
            return Err(Error::new("Invalid message.", 5001));
        }
        let body = copy_range(data.as_slice(), 4, data.len());
        proof {
            assert(body@ =~= data@.skip(4));
        }
        if kind == 1 {
            parse_hello(body.as_slice())
        } else if kind == 16 {
            if body.len() >= 1 && body.len() - 1 == body[0] as usize {
                let public_key = copy_range(body.as_slice(), 1, body.len());
                proof {
                    assert(public_key@ =~= body@.skip(1));
                }
                Ok(HandshakeMessage::ClientKeyExchange { public_key })
            } else {
                Err(Error::new("Invalid message.", 5001))
            }
        } else {
            Ok(HandshakeMessage::HandshakeFinished { verify_data: body })
        }
    }

    /// The message's bytes on the wire. A length that does not fit its field
    /// gives code 5004.
    pub fn get_raw(&self) -> (r: Result<Vec<u8>, Error>)
        ensures
            r is Ok <==> encodable(self@),
            r matches Ok(bytes) ==> bytes@ == handshake_wire(self@),
            r matches Err(e) ==> e.code == 5004,
    {
        match self {
            HandshakeMessage::ServerHello {
                version,
                random,
                session_id,
                cipher_suite,
                extensions,
            } => {
                let mut body: Vec<u8> = Vec::new();
                let version_bytes = version.get_value();
                body.push(version_bytes[0]);
                body.push(version_bytes[1]);
                if random.len() > 0xff_ffff {
                    return Err(Error::new("Provided random is too long.", 5004));
                }
                push_all(&mut body, random.as_slice());
                let empty: Vec<u8> = Vec::new();
                let id: &Vec<u8> = match session_id {
                    Some(id) => id,
                    None => &empty,
                };
                proof {
                    assert(id@ == session_id_bytes(session_id_view(*session_id)));
                }
                if id.len() > 0xff {
                    return Err(
                        Error::new("Provided session ID is too long. (max 255 bytes)", 5004),
                    );
                }
                body.push(id.len() as u8);
                push_all(&mut body, id.as_slice());
                let suite = cipher_suite.bytes();
                body.push(suite[0]);
                body.push(suite[1]);
                body.push(0x00);
                let encoded = match encode_extensions(extensions) {
                    Some(encoded) => encoded,
                    None => {
                        return Err(Error::new("Provided extensions are too long.", 5004));
                    },
                };
                push_be16(&mut body, encoded.len());
                push_all(&mut body, encoded.as_slice());
                proof {
                    assert(body@ =~= handshake_body(self@));
                }
                if body.len() > 0xff_ffff {
                    return Err(Error::new("Provided message is too long.", 5004));
                }
                Ok(frame(0x02, &body))
            },
            HandshakeMessage::ServerCertificate { certificates } => certificate_message(certificates),
            HandshakeMessage::ServerKeyExchange { key_exchange } => {
                match key_exchange {
                    KeyExchange::ECDHE { curve, public_key } => {
                        if public_key.len() > 0xff {
                            return Err(
                                Error::new("Invalid public key. (max length 255 bytes)", 5004),
                            );
                        }
                        let mut body: Vec<u8> = Vec::new();
                        body.push(0x03);
                        body.push(0x00);
                        body.push(0x1d);
                        body.push(public_key.len() as u8);
                        push_all(&mut body, public_key.as_slice());
                        proof {
                            assert(body@ =~= handshake_body(self@));
                        }
                        Ok(frame(0x0c, &body))
                    },
                }
            },
            HandshakeMessage::ServerHelloDone => {
                let body: Vec<u8> = Vec::new();
                proof {
                    assert(body@ =~= handshake_body(self@));
                }
                Ok(frame(0x0e, &body))
            },
            HandshakeMessage::HandshakeFinished { verify_data } => {
                if verify_data.len() > 0xff_ffff {
                    return Err(Error::new("Provided verify data is too long.", 5004));
                }
                Ok(frame(0x14, verify_data))
            },
            HandshakeMessage::ClientHello { .. } => Ok(Vec::new()),
            HandshakeMessage::ClientKeyExchange { .. } => Ok(Vec::new()),
        }
    }
}

/// No message is accepted in part: of a message that is read, no shorter
/// prefix is read as a message.
pub proof fn lemma_prefix_rejected(data: Seq<u8>, k: int)
    requires
        parse_handshake(data) is Ok,
        0 <= k < data.len(),
    ensures
        parse_handshake(data.take(k)) is Err,
{
    let prefix = data.take(k);
    if k >= 4 {
        assert(u24_at(prefix, 1) == u24_at(data, 1));
        assert(prefix[0] == data[0]);
    }
}

} // verus!
