//! The bodies of the handshake messages of the one suite this client
//! speaks: TLS_ECDHE_RSA_WITH_CHACHA20_POLY1305_SHA256 over secp256r1.
use vstd::prelude::*;

use crate::alert::TlsErrorKind;
use crate::x509::cert::{certificate_from_der, parse_certificate, Certificate, CertificateModel};

verus! {

/// The length of a Random.
pub const RANDOM_LEN: usize = 32;

/// The length of an uncompressed P-256 point: 0x04, X, Y.
pub const POINT_LEN: usize = 65;

/// Everything of a ClientHello body after the Random: an empty session id;
/// the one cipher suite 0xCCA8; the null compression method; and the
/// extensions supported_elliptic_curves = {secp256r1} and
/// ec_point_formats = {uncompressed}.
pub open spec fn client_hello_tail() -> Seq<u8> {
    seq![
        0u8,
        0, 2, 0xcc, 0xa8,
        1, 0,
        0, 14,
        0, 10, 0, 4, 0, 2, 0, 0x17,
        0, 11, 0, 2, 1, 0,
    ]
}

/// A ClientHello body: version 3.3, the Random, then the fixed offer.
pub open spec fn client_hello_body(random: Seq<u8>) -> Seq<u8> {
    seq![3u8, 3] + random + client_hello_tail()
}

pub fn client_hello_body_bytes(random: &[u8]) -> (r: Vec<u8>)
    requires
        random@.len() == RANDOM_LEN,
    ensures
        r@ == client_hello_body(random@),
{
    let mut r: Vec<u8> = vec![3, 3];
    let mut i: usize = 0;
    while i < RANDOM_LEN
        invariant
            i <= RANDOM_LEN,
            random@.len() == RANDOM_LEN,
            r@ == seq![3u8, 3] + random@.subrange(0, i as int),
        decreases RANDOM_LEN - i,
    {
        r.push(random[i]);
        i = i + 1;
        assert(r@ =~= seq![3u8, 3] + random@.subrange(0, i as int));
    }
    let mut tail: Vec<u8> = vec![
        0, 0, 2, 0xcc, 0xa8, 1, 0, 0, 14, 0, 10, 0, 4, 0, 2, 0, 0x17, 0, 11, 0, 2, 1, 0,
    ];
    assert(tail@ =~= client_hello_tail());
    r.append(&mut tail);
    assert(random@.subrange(0, RANDOM_LEN as int) =~= random@);
    assert(r@ =~= client_hello_body(random@));
    r
}

/// What a ServerHello body gives: the server Random. A truncated or
/// overlong body is a decode error; a version other than 3.3, a cipher suite
/// other than 0xCCA8 or a compression other than null is an illegal
/// parameter. Extensions, where present, must fill the rest exactly.
pub open spec fn server_hello_of(b: Seq<u8>) -> Result<Seq<u8>, TlsErrorKind> {
    if b.len() < 35 {
        Err(TlsErrorKind::DecodeError)
    } else {
        let sid = b[34] as int;
        let p = 35 + sid;
        if sid > 32 || b.len() < p + 3 {
            Err(TlsErrorKind::DecodeError)
        } else {
            let rest = b.len() - (p + 3);
            if !(rest == 0 || (rest >= 2 && b[p + 3] * 256 + b[p + 4] == rest - 2)) {
                Err(TlsErrorKind::DecodeError)
            } else if b[0] != 3 || b[1] != 3 || b[p] != 0xcc || b[p + 1] != 0xa8 || b[p + 2]
                != 0 {
                Err(TlsErrorKind::IllegalParameter)
            } else {
                Ok(b.subrange(2, 34))
            }
        }
    }
}

fn copy_range(b: &[u8], from: usize, to: usize) -> (r: Vec<u8>)
    requires
        from <= to <= b@.len(),
    ensures
        r@ == b@.subrange(from as int, to as int),
{
    let mut r: Vec<u8> = Vec::new();
    let mut i = from;
    while i < to
        invariant
            from <= i <= to <= b@.len(),
            r@ == b@.subrange(from as int, i as int),
        decreases to - i,
    {
        r.push(b[i]);
        i = i + 1;
        assert(r@ =~= b@.subrange(from as int, i as int));
    }
    r
}

/// Checks a ServerHello body and gives the server Random.
pub fn parse_server_hello(b: &[u8]) -> (r: Result<Vec<u8>, TlsErrorKind>)
    ensures
        match server_hello_of(b@) {
            Ok(random) => r matches Ok(v) && v@ == random,
            Err(e) => r matches Err(x) && x == e,
        },
{
    if b.len() < 35 {
        return Err(TlsErrorKind::DecodeError);
    }
    let sid = b[34] as usize;
    if sid > 32 || b.len() < 35 + sid + 3 {
        return Err(TlsErrorKind::DecodeError);
    }
    let p = 35 + sid;
    let rest = b.len() - (p + 3);
    if !(rest == 0 || (rest >= 2 && b[p + 3] as usize * 256 + b[p + 4] as usize == rest - 2)) {
        return Err(TlsErrorKind::DecodeError);
    }
    if b[0] != 3 || b[1] != 3 || b[p] != 0xcc || b[p + 1] != 0xa8 || b[p + 2] != 0 {
        return Err(TlsErrorKind::IllegalParameter);
    }
    Ok(copy_range(b, 2, 34))
}

/// What a ServerKeyExchange body gives: the server's ephemeral point. The
/// parameters must name secp256r1 (curve type 3, curve 0x0017) with an
/// uncompressed point; the signature after them is framed, not verified.
pub open spec fn server_key_exchange_of(b: Seq<u8>) -> Result<Seq<u8>, TlsErrorKind> {
    if b.len() < 4 + POINT_LEN + 4 {
        Err(TlsErrorKind::DecodeError)
    } else if b[0] != 3 || b[1] != 0 || b[2] != 0x17 {
        Err(TlsErrorKind::IllegalParameter)
    } else if b[3] != POINT_LEN || b[4] != 4 {
        Err(TlsErrorKind::IllegalParameter)
    } else {
        let s = 4 + POINT_LEN;
        // SignatureAndHashAlgorithm, then the signature with a 16-bit length
        if b[s + 2] * 256 + b[s + 3] != b.len() - (s + 4) {
            Err(TlsErrorKind::DecodeError)
        } else {
            Ok(b.subrange(4, 4 + POINT_LEN))
        }
    }
}

pub fn parse_server_key_exchange(b: &[u8]) -> (r: Result<Vec<u8>, TlsErrorKind>)
    ensures
        match server_key_exchange_of(b@) {
            Ok(point) => r matches Ok(v) && v@ == point,
            Err(e) => r matches Err(x) && x == e,
        },
{
    if b.len() < 4 + POINT_LEN + 4 {
        return Err(TlsErrorKind::DecodeError);
    }
    if b[0] != 3 || b[1] != 0 || b[2] != 0x17 {
        return Err(TlsErrorKind::IllegalParameter);
    }
    if b[3] as usize != POINT_LEN || b[4] != 4 {
        return Err(TlsErrorKind::IllegalParameter);
    }
    let s = 4 + POINT_LEN;
    if b[s + 2] as usize * 256 + b[s + 3] as usize != b.len() - (s + 4) {
        return Err(TlsErrorKind::DecodeError);
    }
    Ok(copy_range(b, 4, 4 + POINT_LEN))
}

/// A ClientKeyExchange body: the client's point with its one-byte length.
pub open spec fn client_key_exchange_body(point: Seq<u8>) -> Seq<u8> {
    seq![POINT_LEN as u8] + point
}

pub fn client_key_exchange_bytes(point: &[u8]) -> (r: Vec<u8>)
    requires
        point@.len() == POINT_LEN,
    ensures
        r@ == client_key_exchange_body(point@),
{
    let mut r: Vec<u8> = vec![POINT_LEN as u8];
    let mut p = copy_range(point, 0, POINT_LEN);
    r.append(&mut p);
    assert(point@.subrange(0, POINT_LEN as int) =~= point@);
    assert(r@ =~= client_key_exchange_body(point@));
    r
}

/// A 24-bit big-endian length at `i`.
pub open spec fn u24_at(b: Seq<u8>, i: int) -> int {
    b[i] * 0x10000 + b[i + 1] * 0x100 + b[i + 2]
}

/// The DER certificates of a Certificate body from index `i` to its end,
/// each with its 24-bit length, after those in `done`.
pub open spec fn certificate_entries(b: Seq<u8>, i: int, done: Seq<Seq<u8>>) -> Option<
    Seq<Seq<u8>>,
>
    decreases b.len() - i,
{
    if i >= b.len() {
        Some(done)
    } else if i + 3 > b.len() || i + 3 + u24_at(b, i) > b.len() {
        None
    } else {
        let end = i + 3 + u24_at(b, i);
        certificate_entries(b, end, done.push(b.subrange(i + 3, end)))
    }
}

/// What a Certificate body gives: its leaf, the first certificate of the
/// list, decoded. A list that is empty, or whose lengths do not add up, or a
/// leaf that does not decode, is a decode error.
pub open spec fn leaf_certificate_of(b: Seq<u8>) -> Result<CertificateModel, TlsErrorKind> {
    if b.len() < 3 || u24_at(b, 0) != b.len() - 3 {
        Err(TlsErrorKind::DecodeError)
    } else {
        match certificate_entries(b, 3, seq![]) {
            None => Err(TlsErrorKind::DecodeError),
            Some(list) => if list.len() == 0 {
                Err(TlsErrorKind::DecodeError)
            } else {
                match certificate_from_der(list[0]) {
                    Ok(c) => Ok(c),
                    Err(_) => Err(TlsErrorKind::DecodeError),
                }
            },
        }
    }
}

/// The leaf certificate of a Certificate body. The other certificates are
/// framed but not decoded: chain validation is not part of this client.
pub fn parse_certificate_message(b: &[u8]) -> (r: Result<Certificate, TlsErrorKind>)
    ensures
        match leaf_certificate_of(b@) {
            Ok(m) => r matches Ok(c) && c@ == m,
            Err(e) => r matches Err(x) && x == e,
        },
{
    let n = b.len();
    if n < 3 || b[0] as usize * 0x10000 + b[1] as usize * 0x100 + b[2] as usize != n - 3 {
        return Err(TlsErrorKind::DecodeError);
    }
    let mut i: usize = 3;
    let mut count: usize = 0;
    let mut leaf_start: usize = 0;
    let mut leaf_end: usize = 0;
    let ghost mut list: Seq<Seq<u8>> = seq![];
    while i < n
        invariant
            3 <= i <= n,
            n == b@.len(),
            certificate_entries(b@, 3, seq![]) == certificate_entries(b@, i as int, list),
            count == list.len(),
            count <= i,
            count > 0 ==> leaf_start <= leaf_end <= n && list[0] == b@.subrange(
                leaf_start as int,
                leaf_end as int,
            ),
        decreases n - i,
    {
        if n - i < 3 {
            return Err(TlsErrorKind::DecodeError);
        }
        let len = b[i] as usize * 0x10000 + b[i + 1] as usize * 0x100 + b[i + 2] as usize;
        if len > n - i - 3 {
            return Err(TlsErrorKind::DecodeError);
        }
        let end = i + 3 + len;
        if count == 0 {
            leaf_start = i + 3;
            leaf_end = end;
        }
        proof {
            list = list.push(b@.subrange(i + 3, end as int));
        }
        count = count + 1;
        i = end;
    }
    if count == 0 {
        return Err(TlsErrorKind::DecodeError);
    }
    match parse_certificate(&b[leaf_start..leaf_end]) {
        Ok(c) => Ok(c),
        Err(_) => Err(TlsErrorKind::DecodeError),
    }
}

} // verus!
