use suruga::alert::TlsErrorKind;
use suruga::der::{DerError, Element};
use suruga::client::ClientHandshake;
use suruga::handshake::{HandshakeAction, HandshakeState};
use suruga::messages::parse_certificate_message;
use suruga::prf::tls_prf;
use suruga::record::{ContentType, Direction};
use suruga::sha256::sha256_digest;
use suruga::x509::cert::{parse_certificate, Time, Version};
use suruga::x509::check::{CertError, UtcDateTime, ValidationContext};

fn tlv(tag: u8, content: &[u8]) -> Vec<u8> {
    let mut out = vec![tag];
    let n = content.len();
    if n < 0x80 {
        out.push(n as u8);
    } else if n < 0x100 {
        out.push(0x81);
        out.push(n as u8);
    } else {
        out.push(0x82);
        out.push((n >> 8) as u8);
        out.push(n as u8);
    }
    out.extend_from_slice(content);
    out
}

fn cat(parts: &[Vec<u8>]) -> Vec<u8> {
    parts.concat()
}

const SHA256_RSA: &[u8] = b"\x2A\x86\x48\x86\xF7\x0D\x01\x01\x0B";
const SHA1_RSA: &[u8] = b"\x2A\x86\x48\x86\xF7\x0D\x01\x01\x05";
const RSA: &[u8] = b"\x2A\x86\x48\x86\xF7\x0D\x01\x01\x01";
const COMMON_NAME: &[u8] = b"\x55\x04\x03";
const BASIC_CONSTRAINTS: &[u8] = b"\x55\x1D\x13";

fn alg(oid: &[u8]) -> Vec<u8> {
    tlv(0x30, &cat(&[tlv(0x06, oid), tlv(0x05, b"")]))
}

fn name(string_tag: u8, cn: &[u8]) -> Vec<u8> {
    let atv = tlv(0x30, &cat(&[tlv(0x06, COMMON_NAME), tlv(string_tag, cn)]));
    tlv(0x30, &tlv(0x31, &atv))
}

struct Parts {
    version: Option<u8>,
    sig_in_tbs: &'static [u8],
    sig_outer: &'static [u8],
    not_before: Vec<u8>,
    not_after: Vec<u8>,
    issuer_uid: bool,
    extensions: bool,
    sig_unused_bits: u8,
}

fn standard() -> Parts {
    Parts {
        version: Some(2),
        sig_in_tbs: SHA256_RSA,
        sig_outer: SHA256_RSA,
        not_before: tlv(0x17, b"200101000000Z"),
        not_after: tlv(0x18, b"20991231235959Z"),
        issuer_uid: false,
        extensions: true,
        sig_unused_bits: 0,
    }
}

fn build(p: &Parts) -> Vec<u8> {
    let mut tbs: Vec<Vec<u8>> = Vec::new();
    if let Some(v) = p.version {
        tbs.push(tlv(0xA0, &tlv(0x02, &[v])));
    }
    tbs.push(tlv(0x02, &[0x01, 0x23]));
    tbs.push(alg(p.sig_in_tbs));
    tbs.push(name(0x13, b"Test CA"));
    tbs.push(tlv(0x30, &cat(&[p.not_before.clone(), p.not_after.clone()])));
    tbs.push(name(0x0C, b"leaf"));
    tbs.push(tlv(0x30, &cat(&[alg(RSA), tlv(0x03, &[0x00, 0x30, 0x00])])));
    if p.issuer_uid {
        tbs.push(tlv(0x81, &[0x00, 0xAB]));
    }
    if p.extensions {
        let ext = tlv(
            0x30,
            &cat(&[tlv(0x06, BASIC_CONSTRAINTS), tlv(0x01, &[0xFF]), tlv(0x04, &[0x30, 0x00])]),
        );
        tbs.push(tlv(0xA3, &tlv(0x30, &ext)));
    }
    let tbs = tlv(0x30, &cat(&tbs));
    tlv(
        0x30,
        &cat(&[tbs, alg(p.sig_outer), tlv(0x03, &[p.sig_unused_bits, 0xAB, 0xCD])]),
    )
}

fn at(year: u16, month: u8, day: u8) -> ValidationContext {
    ValidationContext {
        current_time: UtcDateTime { year, month, day, hour: 12, minute: 0, second: 0 },
    }
}

#[test]
fn decodes_every_field() {
    let cert = parse_certificate(&build(&standard())).unwrap();
    let tbs = &cert.tbs_cert;
    assert_eq!(tbs.version, Version::Version3);
    assert_eq!(tbs.serial_number, vec![0x01, 0x23]);
    assert_eq!(tbs.signature.alg.value, vec![1, 2, 840, 113549, 1, 1, 11]);
    assert_eq!(tbs.issuer.seq.len(), 1);
    assert_eq!(tbs.issuer.seq[0].set[0].attr_type.value, vec![2, 5, 4, 3]);
    assert_eq!(tbs.issuer.seq[0].set[0].attr_value, Element::PrintableString(b"Test CA".to_vec()));
    assert_eq!(tbs.subject.seq[0].set[0].attr_value, Element::Utf8String("leaf".to_string()));
    match &tbs.validity.not_before {
        Time::UtcTime(t) => assert_eq!(t, b"200101000000Z"),
        other => panic!("expected UTCTime, found {:?}", other),
    }
    match &tbs.validity.not_after {
        Time::GeneralizedTime(t) => assert_eq!(t, b"20991231235959Z"),
        other => panic!("expected GeneralizedTime, found {:?}", other),
    }
    assert_eq!(tbs.subject_pub_key_info.alg.alg.value, vec![1, 2, 840, 113549, 1, 1, 1]);
    assert_eq!(tbs.subject_pub_key_info.subject_pub_key.unused_bits, 0);
    assert_eq!(tbs.subject_pub_key_info.subject_pub_key.data, vec![0x30, 0x00]);
    assert!(tbs.issuer_unique_id.is_none());
    assert!(tbs.subject_unique_id.is_none());
    assert_eq!(tbs.extensions.len(), 1);
    assert_eq!(tbs.extensions[0].extn_id.value, vec![2, 5, 29, 19]);
    assert!(tbs.extensions[0].critical);
    assert_eq!(tbs.extensions[0].extn_value, vec![0x30, 0x00]);
    assert_eq!(cert.sig_alg.alg.value, vec![1, 2, 840, 113549, 1, 1, 11]);
    assert_eq!(cert.sig_val.data, vec![0xAB, 0xCD]);
}

#[test]
fn version_defaults_to_v1() {
    let mut p = standard();
    p.version = None;
    p.extensions = false;
    let cert = parse_certificate(&build(&p)).unwrap();
    assert_eq!(cert.tbs_cert.version, Version::Version1);
}

#[test]
fn version_numbers() {
    for (n, v) in [(0u8, Version::Version1), (1, Version::Version2), (2, Version::Version3)] {
        let mut p = standard();
        p.version = Some(n);
        assert_eq!(parse_certificate(&build(&p)).unwrap().tbs_cert.version, v);
        assert_eq!(Version::from_integer(&[n]), Ok(v));
    }
    let mut p = standard();
    p.version = Some(3);
    assert_eq!(parse_certificate(&build(&p)).err(), Some(DerError::InvalidValue));
    assert_eq!(Version::from_integer(&[0, 1]), Err(DerError::InvalidValue));
}

#[test]
fn implicit_unique_id() {
    let mut p = standard();
    p.issuer_uid = true;
    let cert = parse_certificate(&build(&p)).unwrap();
    let uid = cert.tbs_cert.issuer_unique_id.unwrap();
    assert_eq!((uid.unused_bits, uid.data), (0, vec![0xAB]));
}

#[test]
fn outer_algorithm_must_match() {
    let mut p = standard();
    p.sig_outer = SHA1_RSA;
    assert_eq!(parse_certificate(&build(&p)).err(), Some(DerError::InvalidValue));
}

#[test]
fn signature_must_be_whole_bytes() {
    let mut p = standard();
    p.sig_unused_bits = 1;
    assert_eq!(parse_certificate(&build(&p)).err(), Some(DerError::InvalidValue));
}

#[test]
fn trailing_bytes_are_refused() {
    let mut der = build(&standard());
    der.push(0x00);
    assert_eq!(parse_certificate(&der).err(), Some(DerError::InvalidValue));
}

#[test]
fn truncated_certificate_is_refused() {
    let der = build(&standard());
    assert_eq!(parse_certificate(&der[..der.len() - 1]).err(), Some(DerError::UnexpectedEnd));
}

#[test]
fn not_a_sequence_is_refused() {
    assert_eq!(parse_certificate(b"\x05\x00").err(), Some(DerError::InvalidValue));
}

#[test]
fn validity_period() {
    let cert = parse_certificate(&build(&standard())).unwrap();
    assert_eq!(at(2024, 6, 1).check_cert(&cert), Ok(()));
    assert_eq!(at(2100, 1, 1).check_cert(&cert), Err(CertError::InvalidPeriod));
    assert_eq!(at(2019, 12, 31).check_cert(&cert), Err(CertError::InvalidPeriod));
    // the bounds themselves are outside
    let start = ValidationContext {
        current_time: UtcDateTime { year: 2020, month: 1, day: 1, hour: 0, minute: 0, second: 0 },
    };
    assert_eq!(start.check_cert(&cert), Err(CertError::InvalidPeriod));
}

#[test]
fn two_digit_years() {
    let mut p = standard();
    p.not_before = tlv(0x17, b"990101000000Z");
    p.not_after = tlv(0x17, b"490101000000Z");
    let cert = parse_certificate(&build(&p)).unwrap();
    assert_eq!(at(1998, 1, 1).check_cert(&cert), Err(CertError::InvalidPeriod));
    assert_eq!(at(2030, 1, 1).check_cert(&cert), Ok(()));
    assert_eq!(at(2049, 6, 1).check_cert(&cert), Err(CertError::InvalidPeriod));
}

#[test]
fn malformed_time_is_an_invalid_field() {
    let mut p = standard();
    p.not_before = tlv(0x17, b"201301000000Z");
    let cert = parse_certificate(&build(&p)).unwrap();
    assert_eq!(at(2024, 6, 1).check_cert(&cert), Err(CertError::InvalidField));
}

#[test]
fn fields_must_suit_the_version() {
    let mut p = standard();
    p.version = None;
    let cert = parse_certificate(&build(&p)).unwrap();
    assert_eq!(at(2024, 6, 1).check_cert(&cert), Err(CertError::InvalidField));

    let mut p = standard();
    p.version = Some(1);
    p.extensions = false;
    p.issuer_uid = true;
    let cert = parse_certificate(&build(&p)).unwrap();
    assert_eq!(at(2024, 6, 1).check_cert(&cert), Ok(()));
}

fn u24(n: usize) -> Vec<u8> {
    vec![(n >> 16) as u8, (n >> 8) as u8, n as u8]
}

#[test]
fn certificate_message_gives_the_leaf() {
    let leaf = build(&standard());
    let other = vec![0x30, 0x00];
    let mut body = u24(3 + leaf.len() + 3 + other.len());
    body.extend(u24(leaf.len()));
    body.extend(&leaf);
    body.extend(u24(other.len()));
    body.extend(&other);
    let cert = parse_certificate_message(&body).unwrap();
    assert_eq!(cert.tbs_cert.serial_number, vec![0x01, 0x23]);
}

#[test]
fn certificate_message_errors() {
    assert_eq!(parse_certificate_message(&[0, 0, 0]).err(), Some(TlsErrorKind::DecodeError));
    assert_eq!(parse_certificate_message(&[0, 0]).err(), Some(TlsErrorKind::DecodeError));
    // the list length does not match
    assert_eq!(parse_certificate_message(&[0, 0, 9, 0, 0, 2, 0x30, 0x00]).err(), Some(TlsErrorKind::DecodeError));
    // an entry runs past the end
    assert_eq!(parse_certificate_message(&[0, 0, 5, 0, 0, 3, 0x30, 0x00]).err(), Some(TlsErrorKind::DecodeError));
    // the leaf is not a certificate
    assert_eq!(parse_certificate_message(&[0, 0, 5, 0, 0, 2, 0x30, 0x00]).err(), Some(TlsErrorKind::DecodeError));
}

fn message(kind: u8, body: &[u8]) -> Vec<u8> {
    let mut m = vec![kind];
    m.extend(u24(body.len()));
    m.extend_from_slice(body);
    m
}

fn hex(s: &str) -> Vec<u8> {
    (0..s.len()).step_by(2).map(|i| u8::from_str_radix(&s[i..i + 2], 16).unwrap()).collect()
}

#[test]
fn end_to_end_handshake_with_fixed_randoms() {
    let cr = [0u8; 32];
    let pms = [0x5au8; 32];
    let client_point: Vec<u8> = std::iter::once(4u8).chain((1..65).map(|i| i as u8)).collect();

    let (mut hs, client_hello) = ClientHandshake::start(&cr);
    let mut transcript = client_hello.clone();

    // ServerHello: version 3.3, an all-zero Random, no session id, 0xCCA8, null compression
    let mut sh_body = vec![3, 3];
    sh_body.extend([0u8; 32]);
    sh_body.extend([0, 0xCC, 0xA8, 0]);
    let leaf = build(&standard());
    let mut cert_body = u24(3 + leaf.len());
    cert_body.extend(u24(leaf.len()));
    cert_body.extend(&leaf);
    let mut ske_body = vec![3, 0, 0x17, 65, 4];
    ske_body.extend([7u8; 64]);
    ske_body.extend([4, 1, 0, 2, 0xAA, 0xBB]);
    let flight = [
        (message(2, &sh_body), HandshakeAction::Nothing, HandshakeState::WaitCertificate),
        (message(11, &cert_body), HandshakeAction::Nothing, HandshakeState::WaitServerKeyExchange),
        (message(12, &ske_body), HandshakeAction::DeriveSharedSecret, HandshakeState::WaitServerHelloDone),
        (message(14, &[]), HandshakeAction::SendClientFlight, HandshakeState::WaitChangeCipherSpecOut),
    ];
    for (m, action, state) in flight.iter() {
        assert_eq!(hs.receive(m), Ok(*action));
        assert_eq!(hs.state(), *state);
        transcript.extend(m);
    }
    assert_eq!(hs.server_point()[1..], [7u8; 64]);
    assert!(hs.leaf_certificate().is_some());

    let out = hs.client_flight(&client_point, &pms).unwrap();
    let mut cke_body = vec![65u8];
    cke_body.extend(&client_point);
    assert_eq!(out.client_key_exchange, message(16, &cke_body));
    transcript.extend(&out.client_key_exchange);

    let master = hex("1eefe94fef03d2ba318018585e449fe13fc8401f6f8988f8315d833a1df0ba944bd8c00eb7142ec0acdeabe9531e5c3a");
    let key_block = tls_prf(&master, b"key expansion", &[0u8; 64], 64);
    assert_eq!(out.client_write_key, key_block[..32].to_vec());
    assert_eq!(out.server_write_key, key_block[32..].to_vec());
    let client_vd = tls_prf(&master, b"client finished", &sha256_digest(&transcript), 12);
    assert_eq!(out.finished, message(20, &client_vd));
    transcript.extend(&out.finished);
    assert_eq!(hs.state(), HandshakeState::WaitChangeCipherSpecIn);

    // the server reads the client Finished under the client write key
    let mut client_out = Direction::new();
    client_out.install(out.client_write_key.clone());
    let record = client_out.write_record(ContentType::Handshake, &out.finished).unwrap();
    let mut server_in = Direction::new();
    server_in.install(key_block[..32].to_vec());
    assert_eq!(server_in.read_fragment(ContentType::Handshake, &record[5..]), Ok(out.finished.clone()));

    assert_eq!(hs.change_cipher_spec(), Ok(HandshakeAction::InstallInboundKey));
    let server_vd = tls_prf(&master, b"server finished", &sha256_digest(&transcript), 12);
    let mut wrong = server_vd.clone();
    wrong[0] ^= 1;
    assert_eq!(hs.state(), HandshakeState::WaitFinished);
    assert_eq!(hs.receive(&message(20, &wrong)), Err(TlsErrorKind::DecryptError));
    assert_eq!(hs.state(), HandshakeState::WaitFinished);
    assert_eq!(hs.receive(&message(20, &server_vd)), Ok(HandshakeAction::Nothing));
    assert_eq!(hs.state(), HandshakeState::Established);
}

#[test]
fn handshake_refuses_messages_out_of_order() {
    let (mut hs, _) = ClientHandshake::start(&[1u8; 32]);
    assert_eq!(hs.receive(&message(14, &[])), Err(TlsErrorKind::UnexpectedMessage));
    assert_eq!(hs.receive(&message(14, &[0])), Err(TlsErrorKind::DecodeError));
    assert_eq!(hs.receive(&[2, 0, 0]), Err(TlsErrorKind::DecodeError));
    assert_eq!(hs.receive(&message(20, &[0; 12])), Err(TlsErrorKind::UnexpectedMessage));
    assert!(hs.client_flight(&[4u8; 65], &[0u8; 32]).is_err());
    assert_eq!(hs.change_cipher_spec(), Err(TlsErrorKind::UnexpectedMessage));
    assert_eq!(hs.state(), HandshakeState::WaitServerHello);
}

#[test]
fn days_are_checked_against_the_month() {
    let mut p = standard();
    p.not_before = tlv(0x17, b"240229000000Z");
    let cert = parse_certificate(&build(&p)).unwrap();
    assert_eq!(at(2024, 6, 1).check_cert(&cert), Ok(()));

    for bad in [&b"230229000000Z"[..], b"240431000000Z", b"240100000000Z", b"990229000000Z"] {
        let mut p = standard();
        p.not_before = tlv(0x17, bad);
        let cert = parse_certificate(&build(&p)).unwrap();
        assert_eq!(at(2024, 6, 1).check_cert(&cert), Err(CertError::InvalidField));
    }
    // 2000 is a leap year, 2100 is not
    let mut p = standard();
    p.not_before = tlv(0x18, b"20000229000000Z");
    let cert = parse_certificate(&build(&p)).unwrap();
    assert_eq!(at(2024, 6, 1).check_cert(&cert), Ok(()));
    let mut p = standard();
    p.not_after = tlv(0x18, b"21000229000000Z");
    let cert = parse_certificate(&build(&p)).unwrap();
    assert_eq!(at(2024, 6, 1).check_cert(&cert), Err(CertError::InvalidField));
}

#[test]
fn validity_period_decides_when_fields_are_allowed() {
    // where the version allows the fields, the period alone decides
    let mut p = standard();
    p.not_after = tlv(0x17, b"210101000000Z");
    let cert = parse_certificate(&build(&p)).unwrap();
    assert_eq!(at(2024, 6, 1).check_cert(&cert), Err(CertError::InvalidPeriod));
    assert_eq!(at(2020, 6, 1).check_cert(&cert), Ok(()));
}
