use cree::tls::crypto::ECCurve;
use cree::tls::protocol::{certificate_message, parse_tls_messages, HandshakeMessage, TLSMessage};
use cree::tls::{Certificate, CipherSuite, KeyExchange, TLSExtension, TLSRecord, TLSVersion};

fn client_hello() -> Vec<u8> {
    let mut body = vec![0x03, 0x03];
    body.extend((0u8..32).collect::<Vec<u8>>());
    body.push(2);
    body.extend([0xaa, 0xbb]);
    body.extend([0x00, 0x04, 0xc0, 0x2f, 0x00, 0x9c]);
    body.extend([0x01, 0x00]);
    body.extend([0x00, 0x0b]);
    body.extend([0xff, 0x01, 0x00, 0x01, 0x00]);
    body.extend([0x00, 0x0a, 0x00, 0x02, 0x00, 0x1d]);
    let mut message = vec![0x01, 0x00, 0x00, body.len() as u8];
    message.extend(body);
    message
}

#[test]
fn record_types_and_versions_have_their_bytes() {
    assert_eq!(TLSRecord::ChangeCipherSpec.get_value(), 0x14);
    assert_eq!(TLSRecord::Alert.get_value(), 0x15);
    assert_eq!(TLSRecord::Handshake.get_value(), 0x16);
    assert_eq!(TLSRecord::Application.get_value(), 0x17);
    assert_eq!(TLSRecord::Heartbeat.get_value(), 0x18);
    assert_eq!(TLSVersion::TLS1_0.get_value(), [0x03, 0x01]);
    assert_eq!(TLSVersion::TLS1_1.get_value(), [0x03, 0x02]);
    assert_eq!(TLSVersion::TLS1_2.get_value(), [0x03, 0x03]);
    assert_eq!(CipherSuite::TLS_ECDHE_RSA_WITH_AES_128_GCM_SHA256.bytes(), [0xc0, 0x2f]);
}

#[test]
fn only_tls_1_2_is_accepted_as_a_version() {
    assert_eq!(TLSVersion::from(&[0x03, 0x03]).unwrap(), TLSVersion::TLS1_2);
    assert_eq!(TLSVersion::from(&[0x03, 0x01]).unwrap_err().code, 5001);
    assert_eq!(TLSVersion::from(&[0x03, 0x02]).unwrap_err().code, 5001);
    assert_eq!(TLSVersion::from(&[0x03]).unwrap_err().code, 5001);
    assert_eq!(TLSVersion::from(&[0x03, 0x03, 0x03]).unwrap_err().code, 5001);
}

#[test]
fn a_record_has_its_header_in_front() {
    let message = TLSMessage::new(TLSRecord::Handshake, TLSVersion::TLS1_2, vec![1, 2, 3]);
    assert_eq!(message.get_raw(), vec![0x16, 0x03, 0x03, 0x00, 0x03, 1, 2, 3]);
    let message = TLSMessage::new(TLSRecord::Alert, TLSVersion::TLS1_0, vec![0; 300]);
    assert_eq!(&message.get_raw()[..5], &[0x15, 0x03, 0x01, 0x01, 0x2c]);
}

#[test]
fn a_record_is_read_back_as_itself() {
    let kinds = [
        TLSRecord::ChangeCipherSpec,
        TLSRecord::Alert,
        TLSRecord::Handshake,
        TLSRecord::Application,
        TLSRecord::Heartbeat,
    ];
    for kind in kinds {
        for len in [0usize, 1, 255, 256, 16384] {
            let content: Vec<u8> = (0..len).map(|i| (i % 251) as u8).collect();
            let raw = TLSMessage::new(kind, TLSVersion::TLS1_2, content.clone()).get_raw();
            let read = parse_tls_messages(&raw).unwrap();
            assert_eq!(read.len(), 1);
            assert_eq!(read[0].record, kind);
            assert_eq!(read[0].version, TLSVersion::TLS1_2);
            assert_eq!(read[0].content, content);
            assert_eq!(read[0].get_raw(), raw);
        }
    }
}

#[test]
fn several_records_are_read_in_order() {
    let mut raw = TLSMessage::new(TLSRecord::Handshake, TLSVersion::TLS1_2, vec![1]).get_raw();
    raw.extend(TLSMessage::new(TLSRecord::ChangeCipherSpec, TLSVersion::TLS1_1, vec![1]).get_raw());
    raw.extend(TLSMessage::new(TLSRecord::Application, TLSVersion::TLS1_0, vec![]).get_raw());
    let read = parse_tls_messages(&raw).unwrap();
    assert_eq!(read.len(), 3);
    assert_eq!(read[1].record, TLSRecord::ChangeCipherSpec);
    assert_eq!(read[1].version, TLSVersion::TLS1_1);
    assert_eq!(read[2].version, TLSVersion::TLS1_0);
    let again: Vec<u8> = read.iter().flat_map(|m| m.get_raw()).collect();
    assert_eq!(again, raw);
}

#[test]
fn malformed_records_are_refused() {
    assert_eq!(parse_tls_messages(&[]).unwrap_err().code, 5001);
    assert_eq!(parse_tls_messages(&[0x13, 3, 3, 0, 0]).unwrap_err().code, 5001);
    assert_eq!(parse_tls_messages(&[0x19, 3, 3, 0, 0]).unwrap_err().code, 5001);
    assert_eq!(parse_tls_messages(&[0x16, 3, 4, 0, 0]).unwrap_err().code, 5005);
    assert_eq!(parse_tls_messages(&[0x16, 2, 3, 0, 0]).unwrap_err().code, 5005);
    assert_eq!(parse_tls_messages(&[0x16, 3, 3, 0]).unwrap_err().code, 5001);
    assert_eq!(parse_tls_messages(&[0x16, 3, 3, 0, 2, 1]).unwrap_err().code, 5001);
    assert_eq!(parse_tls_messages(&[0x16, 3, 3, 0, 1, 1, 0x16]).unwrap_err().code, 5001);
}

#[test]
fn a_client_hello_is_read() {
    match HandshakeMessage::parse(&client_hello()).unwrap() {
        HandshakeMessage::ClientHello { version, random, session_id, cipher_suites, extensions } => {
            assert_eq!(version, TLSVersion::TLS1_2);
            assert_eq!(random, (0u8..32).collect::<Vec<u8>>());
            assert_eq!(session_id, Some(vec![0xaa, 0xbb]));
            assert_eq!(cipher_suites, vec![0xc02f, 0x009c]);
            assert_eq!(extensions.len(), 2);
            assert_eq!(extensions[0].id, 65281);
            assert_eq!(extensions[0].content, vec![0]);
            assert_eq!(extensions[1].id, 10);
            assert_eq!(extensions[1].content, vec![0x00, 0x1d]);
        }
        other => panic!("not a ClientHello: {:?}", other),
    }
}

#[test]
fn a_client_hello_without_extensions_is_read() {
    let mut body = vec![0x03, 0x03];
    body.extend([7u8; 32]);
    body.extend([0, 0x00, 0x02, 0xc0, 0x2f, 0x01, 0x00]);
    let mut message = vec![0x01, 0x00, 0x00, body.len() as u8];
    message.extend(body);
    match HandshakeMessage::parse(&message).unwrap() {
        HandshakeMessage::ClientHello { session_id, cipher_suites, extensions, .. } => {
            assert_eq!(session_id, None);
            assert_eq!(cipher_suites, vec![0xc02f]);
            assert!(extensions.is_empty());
        }
        other => panic!("not a ClientHello: {:?}", other),
    }
}

#[test]
fn no_prefix_of_a_message_is_accepted() {
    let mut key_exchange = vec![16, 0, 0, 33, 32];
    key_exchange.extend([9u8; 32]);
    let mut finished = vec![20, 0, 0, 12];
    finished.extend([1u8; 12]);
    for message in [client_hello(), key_exchange, finished] {
        assert!(HandshakeMessage::parse(&message).is_ok());
        for k in 0..message.len() {
            assert!(HandshakeMessage::parse(&message[..k].to_vec()).is_err());
        }
    }
}

#[test]
fn a_client_key_exchange_and_a_finished_are_read() {
    let mut key_exchange = vec![16, 0, 0, 33, 32];
    key_exchange.extend([9u8; 32]);
    match HandshakeMessage::parse(&key_exchange).unwrap() {
        HandshakeMessage::ClientKeyExchange { public_key } => assert_eq!(public_key, vec![9u8; 32]),
        other => panic!("not a ClientKeyExchange: {:?}", other),
    }
    let mut finished = vec![20, 0, 0, 12];
    finished.extend([1u8; 12]);
    match HandshakeMessage::parse(&finished).unwrap() {
        HandshakeMessage::HandshakeFinished { verify_data } => assert_eq!(verify_data, vec![1u8; 12]),
        other => panic!("not a Finished: {:?}", other),
    }
}

#[test]
fn malformed_handshake_messages_are_refused() {
    assert_eq!(HandshakeMessage::parse(&vec![]).unwrap_err().code, 5001);
    assert_eq!(HandshakeMessage::parse(&vec![2, 0, 0, 0]).unwrap_err().code, 5002);
    assert_eq!(HandshakeMessage::parse(&vec![99, 0, 0, 0]).unwrap_err().code, 5002);
    assert_eq!(HandshakeMessage::parse(&vec![20, 0, 0, 5, 1]).unwrap_err().code, 5001);
    assert_eq!(HandshakeMessage::parse(&vec![16, 0, 0, 2, 5, 1]).unwrap_err().code, 5001);
    assert_eq!(HandshakeMessage::parse(&vec![16, 0, 0, 0]).unwrap_err().code, 5001);
    let mut hello = client_hello();
    hello[4] = 0x03;
    hello[5] = 0x01;
    assert_eq!(HandshakeMessage::parse(&hello).unwrap_err().code, 5001);
    let mut hello = client_hello();
    hello[42] = 0x03;
    assert_eq!(HandshakeMessage::parse(&hello).unwrap_err().code, 5001);
}

#[test]
fn a_server_hello_is_written() {
    let hello = HandshakeMessage::ServerHello {
        version: TLSVersion::TLS1_2,
        random: vec![7; 32],
        session_id: None,
        cipher_suite: CipherSuite::TLS_ECDHE_RSA_WITH_AES_128_GCM_SHA256,
        extensions: vec![TLSExtension::new(65281, vec![0])],
    };
    let mut expected = vec![0x02, 0x00, 0x00, 45, 0x03, 0x03];
    expected.extend([7u8; 32]);
    expected.extend([0x00, 0xc0, 0x2f, 0x00, 0x00, 0x05, 0xff, 0x01, 0x00, 0x01, 0x00]);
    assert_eq!(hello.get_raw().unwrap(), expected);
}

#[test]
fn a_server_hello_with_a_session_id_is_written() {
    let hello = HandshakeMessage::ServerHello {
        version: TLSVersion::TLS1_2,
        random: vec![7; 32],
        session_id: Some(vec![1, 2, 3]),
        cipher_suite: CipherSuite::TLS_ECDHE_RSA_WITH_AES_128_GCM_SHA256,
        extensions: vec![],
    };
    let raw = hello.get_raw().unwrap();
    assert_eq!(&raw[..4], &[0x02, 0x00, 0x00, 43]);
    assert_eq!(&raw[38..42], &[3, 1, 2, 3]);
    assert_eq!(&raw[42..], &[0xc0, 0x2f, 0x00, 0x00, 0x00]);
}

#[test]
fn certificates_are_written_with_their_lengths() {
    let chain = vec![Certificate { raw: vec![1, 2, 3] }, Certificate { raw: vec![4, 5] }];
    let expected = vec![0x0b, 0, 0, 14, 0, 0, 11, 0, 0, 3, 1, 2, 3, 0, 0, 2, 4, 5];
    assert_eq!(certificate_message(&chain).unwrap(), expected);
    let message = HandshakeMessage::ServerCertificate { certificates: chain };
    assert_eq!(message.get_raw().unwrap(), expected);
}

#[test]
fn a_key_exchange_is_written_with_curve_and_key() {
    let message = HandshakeMessage::ServerKeyExchange {
        key_exchange: KeyExchange::ECDHE { curve: ECCurve::x25519, public_key: vec![9; 32] },
    };
    let mut expected = vec![0x0c, 0, 0, 36, 0x03, 0x00, 0x1d, 32];
    expected.extend([9u8; 32]);
    assert_eq!(message.get_raw().unwrap(), expected);
}

#[test]
fn hello_done_and_finished_are_written() {
    assert_eq!(HandshakeMessage::ServerHelloDone.get_raw().unwrap(), vec![0x0e, 0, 0, 0]);
    let finished = HandshakeMessage::HandshakeFinished { verify_data: vec![5; 12] };
    let mut expected = vec![0x14, 0, 0, 12];
    expected.extend([5u8; 12]);
    assert_eq!(finished.get_raw().unwrap(), expected);
}

#[test]
fn the_length_of_a_message_is_that_of_its_body() {
    let finished = HandshakeMessage::HandshakeFinished { verify_data: vec![5; 70000] };
    let raw = finished.get_raw().unwrap();
    assert_eq!(&raw[..4], &[0x14, 0x01, 0x11, 0x70]);
    assert_eq!(raw.len(), 70004);
}

#[test]
fn messages_of_a_client_are_not_written() {
    let message = HandshakeMessage::ClientKeyExchange { public_key: vec![1; 32] };
    assert_eq!(message.get_raw().unwrap(), Vec::<u8>::new());
}

#[test]
fn a_field_that_is_too_long_is_refused() {
    let hello = HandshakeMessage::ServerHello {
        version: TLSVersion::TLS1_2,
        random: vec![7; 32],
        session_id: Some(vec![0; 256]),
        cipher_suite: CipherSuite::TLS_ECDHE_RSA_WITH_AES_128_GCM_SHA256,
        extensions: vec![],
    };
    assert_eq!(hello.get_raw().unwrap_err().code, 5004);
    let hello = HandshakeMessage::ServerHello {
        version: TLSVersion::TLS1_2,
        random: vec![7; 32],
        session_id: None,
        cipher_suite: CipherSuite::TLS_ECDHE_RSA_WITH_AES_128_GCM_SHA256,
        extensions: vec![TLSExtension::new(1, vec![0; 65536])],
    };
    assert_eq!(hello.get_raw().unwrap_err().code, 5004);
    let hello = HandshakeMessage::ServerHello {
        version: TLSVersion::TLS1_2,
        random: vec![7; 32],
        session_id: None,
        cipher_suite: CipherSuite::TLS_ECDHE_RSA_WITH_AES_128_GCM_SHA256,
        extensions: vec![TLSExtension::new(1, vec![0; 40000]), TLSExtension::new(2, vec![0; 40000])],
    };
    assert_eq!(hello.get_raw().unwrap_err().code, 5004);
    let exchange = HandshakeMessage::ServerKeyExchange {
        key_exchange: KeyExchange::ECDHE { curve: ECCurve::x25519, public_key: vec![0; 256] },
    };
    assert_eq!(exchange.get_raw().unwrap_err().code, 5004);
}
