use suruga::alert::{alert_for, alert_message, TlsErrorKind};
use suruga::handshake::{
    encode_message_header, parse_message_header, split_key_block, step, verify_finished,
    HandshakeAction, HandshakeBuffer, HandshakeEvent, HandshakeState, HandshakeType, Transcript,
};
use suruga::messages::{
    client_hello_body_bytes, client_key_exchange_bytes, parse_server_hello,
    parse_server_key_exchange,
};
use suruga::record::{
    additional_data, encode_header, nonce, parse_header, ContentType, Direction, SequenceNumber,
};

#[test]
fn alerts_for_error_kinds() {
    assert_eq!(alert_for(TlsErrorKind::IoFailure), None);
    assert_eq!(alert_for(TlsErrorKind::UnexpectedMessage), Some(10));
    assert_eq!(alert_for(TlsErrorKind::BadRecordMac), Some(20));
    assert_eq!(alert_for(TlsErrorKind::DecryptError), Some(51));
    assert_eq!(alert_for(TlsErrorKind::IllegalParameter), Some(47));
    assert_eq!(alert_for(TlsErrorKind::DecodeError), Some(50));
    assert_eq!(alert_for(TlsErrorKind::InternalError), Some(80));
    assert_eq!(alert_for(TlsErrorKind::AlertReceived), None);
    assert_eq!(alert_message(TlsErrorKind::DecodeError), Some(vec![2, 50]));
    assert_eq!(alert_message(TlsErrorKind::IoFailure), None);
}

#[test]
fn record_header_round_trip() {
    let h = encode_header(ContentType::Handshake, 0x0105);
    assert_eq!(h, vec![22, 3, 3, 0x01, 0x05]);
    assert_eq!(parse_header(&h, false, false), Ok((ContentType::Handshake, 0x0105)));
    for (ct, code) in [
        (ContentType::ChangeCipherSpec, 20u8),
        (ContentType::Alert, 21),
        (ContentType::Handshake, 22),
        (ContentType::ApplicationData, 23),
    ] {
        assert_eq!(ct.code(), code);
        assert_eq!(ContentType::from_code(code), Some(ct));
    }
    assert_eq!(ContentType::from_code(24), None);
}

#[test]
fn record_header_errors() {
    assert_eq!(parse_header(&[25, 3, 3, 0, 1], false, false), Err(TlsErrorKind::UnexpectedMessage));
    assert_eq!(parse_header(&[22, 3, 1, 0, 1], false, false), Err(TlsErrorKind::IllegalParameter));
    assert_eq!(parse_header(&[22, 3, 1, 0, 1], false, true), Ok((ContentType::Handshake, 1)));
    assert_eq!(parse_header(&[22, 3, 3, 0], false, false), Err(TlsErrorKind::DecodeError));
    // 2^14 in the clear, 2^14 + 2048 protected
    assert_eq!(parse_header(&[23, 3, 3, 0x40, 0x00], false, false), Ok((ContentType::ApplicationData, 16384)));
    assert_eq!(parse_header(&[23, 3, 3, 0x40, 0x01], false, false), Err(TlsErrorKind::DecodeError));
    assert_eq!(parse_header(&[23, 3, 3, 0x48, 0x00], true, false), Ok((ContentType::ApplicationData, 18432)));
    assert_eq!(parse_header(&[23, 3, 3, 0x48, 0x01], true, false), Err(TlsErrorKind::DecodeError));
}

#[test]
fn sequence_numbers_count_up_by_one() {
    let mut s = SequenceNumber::new();
    assert_eq!(s.current(), 0);
    assert_eq!(s.advance(), Ok(0));
    assert_eq!(s.advance(), Ok(1));
    assert_eq!(s.advance(), Ok(2));
    assert_eq!(s.current(), 3);
    s.reset();
    assert_eq!(s.current(), 0);
}

#[test]
fn nonce_and_additional_data() {
    assert_eq!(nonce(1), vec![0, 0, 0, 0, 0, 0, 0, 0, 0, 0, 0, 1]);
    assert_eq!(
        nonce(0x0102030405060708),
        vec![0, 0, 0, 0, 1, 2, 3, 4, 5, 6, 7, 8]
    );
    assert_eq!(
        additional_data(0x0102030405060708, ContentType::ApplicationData, 0x1234),
        vec![1, 2, 3, 4, 5, 6, 7, 8, 23, 3, 3, 0x12, 0x34]
    );
}

#[test]
fn installing_a_key_restarts_numbering() {
    let mut d = Direction::new();
    assert!(!d.is_protected());
    assert_eq!(d.next_record(ContentType::Handshake, 4), Ok(None));
    d.install(vec![7; 32]);
    assert!(d.is_protected());
    let (n0, a0) = d.next_record(ContentType::Handshake, 16).unwrap().unwrap();
    assert_eq!(n0, nonce(0));
    assert_eq!(a0, additional_data(0, ContentType::Handshake, 16));
    let (n1, _) = d.next_record(ContentType::ApplicationData, 1).unwrap().unwrap();
    assert_eq!(n1, nonce(1));
    d.install(vec![9; 32]);
    let (n, _) = d.next_record(ContentType::ApplicationData, 1).unwrap().unwrap();
    assert_eq!(n, nonce(0));
}

#[test]
fn handshake_header_round_trip() {
    let h = encode_message_header(HandshakeType::Certificate, 0x012345);
    assert_eq!(h, vec![11, 0x01, 0x23, 0x45]);
    assert_eq!(parse_message_header(&h), Ok((HandshakeType::Certificate, 0x012345)));
    assert_eq!(parse_message_header(&[13, 0, 0, 0]), Err(TlsErrorKind::UnexpectedMessage));
    assert_eq!(parse_message_header(&[20, 0, 0]), Err(TlsErrorKind::DecodeError));
}

#[test]
fn finished_comparison() {
    let expected: Vec<u8> = (1..=12).collect();
    assert!(verify_finished(&expected, &expected.clone()));
    for i in 0..12 {
        for bit in 0..8 {
            let mut m = expected.clone();
            m[i] ^= 1 << bit;
            assert!(!verify_finished(&expected, &m));
        }
    }
    assert!(!verify_finished(&expected, &expected[..11]));
    let mut longer = expected.clone();
    longer.push(0);
    assert!(!verify_finished(&expected, &longer));
}

#[test]
fn key_block_halves() {
    let kb: Vec<u8> = (0..64).collect();
    let (c, s) = split_key_block(&kb);
    assert_eq!(c, (0..32).collect::<Vec<u8>>());
    assert_eq!(s, (32..64).collect::<Vec<u8>>());
}

#[test]
fn handshake_happy_path() {
    let events = [
        (HandshakeEvent::Begin, HandshakeState::WaitServerHello, HandshakeAction::SendClientHello),
        (HandshakeEvent::ServerHello, HandshakeState::WaitCertificate, HandshakeAction::Nothing),
        (HandshakeEvent::Certificate, HandshakeState::WaitServerKeyExchange, HandshakeAction::Nothing),
        (
            HandshakeEvent::ServerKeyExchange,
            HandshakeState::WaitServerHelloDone,
            HandshakeAction::DeriveSharedSecret,
        ),
        (
            HandshakeEvent::ServerHelloDone,
            HandshakeState::WaitChangeCipherSpecOut,
            HandshakeAction::SendClientFlight,
        ),
        (HandshakeEvent::ClientFlightSent, HandshakeState::WaitChangeCipherSpecIn, HandshakeAction::Nothing),
        (
            HandshakeEvent::ChangeCipherSpec,
            HandshakeState::WaitFinished,
            HandshakeAction::InstallInboundKey,
        ),
        (
            HandshakeEvent::Finished { verified: true },
            HandshakeState::Established,
            HandshakeAction::Nothing,
        ),
        (HandshakeEvent::ApplicationData, HandshakeState::Established, HandshakeAction::DeliverData),
    ];
    let mut s = HandshakeState::Start;
    for (e, next, action) in events {
        assert_eq!(step(s, e), Ok((next, action)));
        s = next;
    }
}

#[test]
fn transport_closing_before_server_finished_is_io_failure() {
    assert_eq!(
        step(HandshakeState::WaitFinished, HandshakeEvent::TransportClosed),
        Err(TlsErrorKind::IoFailure)
    );
    assert_eq!(
        step(HandshakeState::Established, HandshakeEvent::TransportClosed),
        Err(TlsErrorKind::IoFailure)
    );
}

#[test]
fn handshake_failures() {
    assert_eq!(
        step(HandshakeState::WaitFinished, HandshakeEvent::Finished { verified: false }),
        Err(TlsErrorKind::DecryptError)
    );
    assert_eq!(
        step(HandshakeState::WaitServerHello, HandshakeEvent::Certificate),
        Err(TlsErrorKind::UnexpectedMessage)
    );
    assert_eq!(
        step(HandshakeState::WaitCertificate, HandshakeEvent::ApplicationData),
        Err(TlsErrorKind::UnexpectedMessage)
    );
    assert_eq!(
        step(HandshakeState::WaitServerHelloDone, HandshakeEvent::Alert),
        Err(TlsErrorKind::AlertReceived)
    );
    assert_eq!(
        step(HandshakeState::Established, HandshakeEvent::ServerHello),
        Err(TlsErrorKind::UnexpectedMessage)
    );
}

#[test]
fn transcript_keeps_messages_in_order() {
    let mut t = Transcript::new();
    t.append(&[1, 0, 0, 1, 9]);
    t.append(&[2, 0, 0, 0]);
    assert_eq!(t.as_bytes(), &[1, 0, 0, 1, 9, 2, 0, 0, 0]);
}

#[test]
fn handshake_messages_are_reassembled() {
    let mut b = HandshakeBuffer::new();
    assert!(b.is_empty());
    b.push_fragment(&[14, 0]);
    assert_eq!(b.take_message(), Ok(None));
    assert!(!b.is_empty());
    b.push_fragment(&[0, 0, 20, 0, 0, 2, 0xAA]);
    assert_eq!(b.take_message(), Ok(Some((HandshakeType::ServerHelloDone, vec![14, 0, 0, 0]))));
    assert_eq!(b.take_message(), Ok(None));
    b.push_fragment(&[0xBB]);
    assert_eq!(
        b.take_message(),
        Ok(Some((HandshakeType::Finished, vec![20, 0, 0, 2, 0xAA, 0xBB])))
    );
    assert!(b.is_empty());
    b.push_fragment(&[99, 0, 0, 0]);
    assert_eq!(b.take_message(), Err(TlsErrorKind::UnexpectedMessage));
}

fn server_hello(version: [u8; 2], suite: [u8; 2], compression: u8, extensions: &[u8]) -> Vec<u8> {
    let mut b = version.to_vec();
    b.extend((0..32).map(|i| i as u8));
    b.push(4);
    b.extend([9, 9, 9, 9]);
    b.extend(suite);
    b.push(compression);
    b.extend_from_slice(extensions);
    b
}

#[test]
fn client_hello_contents() {
    let random = [0u8; 32];
    let body = client_hello_body_bytes(&random);
    assert_eq!(body.len(), 57);
    assert_eq!(&body[..2], &[3, 3]);
    assert_eq!(&body[2..34], &random[..]);
    assert_eq!(
        &body[34..],
        &[0, 0, 2, 0xCC, 0xA8, 1, 0, 0, 14, 0, 10, 0, 4, 0, 2, 0, 0x17, 0, 11, 0, 2, 1, 0]
    );
}

#[test]
fn server_hello_checks() {
    let ok = server_hello([3, 3], [0xCC, 0xA8], 0, &[]);
    assert_eq!(parse_server_hello(&ok), Ok((0..32).collect::<Vec<u8>>()));
    let with_ext = server_hello([3, 3], [0xCC, 0xA8], 0, &[0, 6, 0, 11, 0, 2, 1, 0]);
    assert_eq!(parse_server_hello(&with_ext), Ok((0..32).collect::<Vec<u8>>()));
    let bad_ext = server_hello([3, 3], [0xCC, 0xA8], 0, &[0, 7, 0, 11]);
    assert_eq!(parse_server_hello(&bad_ext), Err(TlsErrorKind::DecodeError));
    assert_eq!(
        parse_server_hello(&server_hello([3, 1], [0xCC, 0xA8], 0, &[])),
        Err(TlsErrorKind::IllegalParameter)
    );
    assert_eq!(
        parse_server_hello(&server_hello([3, 3], [0xC0, 0x2F], 0, &[])),
        Err(TlsErrorKind::IllegalParameter)
    );
    assert_eq!(
        parse_server_hello(&server_hello([3, 3], [0xCC, 0xA8], 1, &[])),
        Err(TlsErrorKind::IllegalParameter)
    );
    assert_eq!(parse_server_hello(&ok[..ok.len() - 1]), Err(TlsErrorKind::DecodeError));
}

fn server_key_exchange(curve: [u8; 3], sig: &[u8]) -> Vec<u8> {
    let mut b = curve.to_vec();
    b.push(65);
    b.push(4);
    b.extend((1..65).map(|i| i as u8));
    b.extend([4, 1]);
    b.push((sig.len() >> 8) as u8);
    b.push(sig.len() as u8);
    b.extend_from_slice(sig);
    b
}

#[test]
fn server_key_exchange_checks() {
    let ske = server_key_exchange([3, 0, 0x17], &[0xAA; 3]);
    let point = parse_server_key_exchange(&ske).unwrap();
    assert_eq!(point.len(), 65);
    assert_eq!(point[0], 4);
    assert_eq!(point[64], 64);
    assert_eq!(
        parse_server_key_exchange(&server_key_exchange([3, 0, 0x18], &[1])),
        Err(TlsErrorKind::IllegalParameter)
    );
    let mut short_sig = ske.clone();
    short_sig.pop();
    assert_eq!(parse_server_key_exchange(&short_sig), Err(TlsErrorKind::DecodeError));
}

#[test]
fn client_key_exchange_contents() {
    let point: Vec<u8> = (0..65).collect();
    let body = client_key_exchange_bytes(&point);
    assert_eq!(body[0], 65);
    assert_eq!(&body[1..], &point[..]);
}

#[test]
fn records_in_the_clear_before_a_key() {
    let mut w = Direction::new();
    let rec = w.write_record(ContentType::Handshake, &[1, 2, 3]).unwrap();
    assert_eq!(rec, vec![22, 3, 3, 0, 3, 1, 2, 3]);
    let mut r = Direction::new();
    assert_eq!(r.read_fragment(ContentType::Handshake, &rec[5..]), Ok(vec![1, 2, 3]));
}

#[test]
fn protected_records_round_trip_in_order() {
    let key = vec![0x42u8; 32];
    let mut w = Direction::new();
    let mut r = Direction::new();
    w.install(key.clone());
    r.install(key);
    let first = w.write_record(ContentType::ApplicationData, b"first").unwrap();
    let second = w.write_record(ContentType::ApplicationData, b"second").unwrap();
    assert_eq!(&first[..5], &[23, 3, 3, 0, 5 + 16]);
    assert_eq!(parse_header(&second[..5], true, false), Ok((ContentType::ApplicationData, 6 + 16)));
    assert_eq!(r.read_fragment(ContentType::ApplicationData, &first[5..]), Ok(b"first".to_vec()));
    assert_eq!(r.read_fragment(ContentType::ApplicationData, &second[5..]), Ok(b"second".to_vec()));
}

#[test]
fn protected_records_refuse_tampering_and_gaps() {
    let key = vec![0x42u8; 32];
    let mut w = Direction::new();
    w.install(key.clone());
    let first = w.write_record(ContentType::ApplicationData, b"first").unwrap();
    let second = w.write_record(ContentType::ApplicationData, b"second").unwrap();

    let mut r = Direction::new();
    r.install(key.clone());
    let mut bad = first.clone();
    bad[7] ^= 1;
    assert_eq!(r.read_fragment(ContentType::ApplicationData, &bad[5..]), Err(TlsErrorKind::BadRecordMac));
    // the content type is authenticated
    assert_eq!(r.read_fragment(ContentType::Handshake, &first[5..]), Err(TlsErrorKind::BadRecordMac));
    // a skipped record is a gap: the next one does not open
    assert_eq!(r.read_fragment(ContentType::ApplicationData, &second[5..]), Err(TlsErrorKind::BadRecordMac));
    assert_eq!(r.read_fragment(ContentType::ApplicationData, &first[5..]), Ok(b"first".to_vec()));
    assert_eq!(r.read_fragment(ContentType::ApplicationData, &[0; 15]), Err(TlsErrorKind::BadRecordMac));
}
