//! The TLS 1.2 record layer: framing, the per-direction sequence numbers,
//! and the protection of each record with ChaCha20-Poly1305 under the nonce
//! and additional data that its number gives (RFC 7905).
use vstd::prelude::*;

use crate::aead::{opened, seal, open, sealed, MAX_PLAINTEXT_LEN, TAG_LEN};
use crate::alert::TlsErrorKind;

verus! {

/// The four record content types.
#[derive(Debug, Clone, Copy, PartialEq, Eq, Structural)]
pub enum ContentType {
    ChangeCipherSpec,
    Alert,
    Handshake,
    ApplicationData,
}

impl ContentType {
    pub open spec fn spec_code(self) -> u8 {
        match self {
            ContentType::ChangeCipherSpec => 20,
            ContentType::Alert => 21,
            ContentType::Handshake => 22,
            ContentType::ApplicationData => 23,
        }
    }

    pub fn code(&self) -> (r: u8)
        ensures
            r == self.spec_code(),
    {
        match self {
            ContentType::ChangeCipherSpec => 20,
            ContentType::Alert => 21,
            ContentType::Handshake => 22,
            ContentType::ApplicationData => 23,
        }
    }

    /// The content type with this code, if any.
    pub fn from_code(b: u8) -> (r: Option<ContentType>)
        ensures
            r is Some <==> 20 <= b <= 23,
            r matches Some(t) ==> t.spec_code() == b,
    {
        if b == 20 {
            Some(ContentType::ChangeCipherSpec)
        } else if b == 21 {
            Some(ContentType::Alert)
        } else if b == 22 {
            Some(ContentType::Handshake)
        } else if b == 23 {
            Some(ContentType::ApplicationData)
        } else {
            None
        }
    }
}

/// The largest plaintext fragment.
pub const MAX_PLAINTEXT: u16 = 16384;

/// The largest protected fragment.
pub const MAX_CIPHERTEXT: u16 = 16384 + 2048;

/// The length of a record header.
pub const HEADER_LEN: usize = 5;

/// The `n` low bytes of `v`, most significant first.
pub open spec fn be_bytes(v: nat, n: nat) -> Seq<u8>
    decreases n,
{
    if n == 0 {
        seq![]
    } else {
        be_bytes(v / 256, (n - 1) as nat).push((v % 256) as u8)
    }
}

pub proof fn lemma_be_bytes_len(v: nat, n: nat)
    ensures
        be_bytes(v, n).len() == n,
    decreases n,
{
    if n > 0 {
        lemma_be_bytes_len(v / 256, (n - 1) as nat);
    }
}

/// The largest fragment a record may carry, protected or not.
pub open spec fn length_limit(protected: bool) -> u16 {
    if protected {
        MAX_CIPHERTEXT
    } else {
        MAX_PLAINTEXT
    }
}

/// A record header: content type, version 3.3, fragment length.
pub open spec fn header_bytes(ct: ContentType, len: u16) -> Seq<u8> {
    seq![ct.spec_code(), 3, 3] + be_bytes(len as nat, 2)
}

/// What a received header says: its content type and fragment length. A
/// version other than 3.3 is refused unless `lenient_version`.
pub open spec fn header_of(h: Seq<u8>, protected: bool, lenient_version: bool) -> Result<
    (ContentType, u16),
    TlsErrorKind,
> {
    if h.len() != 5 {
        Err(TlsErrorKind::DecodeError)
    } else if !(20 <= h[0] <= 23) {
        Err(TlsErrorKind::UnexpectedMessage)
    } else if !lenient_version && (h[1] != 3 || h[2] != 3) {
        Err(TlsErrorKind::IllegalParameter)
    } else {
        let len = h[3] * 256 + h[4];
        if len > length_limit(protected) {
            Err(TlsErrorKind::DecodeError)
        } else {
            let ct = if h[0] == 20 {
                ContentType::ChangeCipherSpec
            } else if h[0] == 21 {
                ContentType::Alert
            } else if h[0] == 22 {
                ContentType::Handshake
            } else {
                ContentType::ApplicationData
            };
            Ok((ct, len as u16))
        }
    }
}

/// The header of a record of `len` bytes of type `ct`.
pub fn encode_header(ct: ContentType, len: u16) -> (r: Vec<u8>)
    ensures
        r@ == header_bytes(ct, len),
{
    let r = vec![ct.code(), 3, 3, (len / 256) as u8, (len % 256) as u8];
    proof {
        reveal_with_fuel(be_bytes, 3);
        assert(r@ =~= header_bytes(ct, len));
    }
    r
}

/// Reads a received record header.
pub fn parse_header(h: &[u8], protected: bool, lenient_version: bool) -> (r: Result<
    (ContentType, u16),
    TlsErrorKind,
>)
    ensures
        r == header_of(h@, protected, lenient_version),
{
    if h.len() != 5 {
        return Err(TlsErrorKind::DecodeError);
    }
    let ct = match ContentType::from_code(h[0]) {
        Some(ct) => ct,
        None => {
            return Err(TlsErrorKind::UnexpectedMessage);
        },
    };
    if !lenient_version && (h[1] != 3 || h[2] != 3) {
        return Err(TlsErrorKind::IllegalParameter);
    }
    let len: u16 = h[3] as u16 * 256 + h[4] as u16;
    let limit = if protected {
        MAX_CIPHERTEXT
    } else {
        MAX_PLAINTEXT
    };
    if len > limit {
        return Err(TlsErrorKind::DecodeError);
    }
    Ok((ct, len))
}

/// A header that this layer writes reads back as what was written.
pub proof fn lemma_header_round_trip(ct: ContentType, len: u16, protected: bool)
    requires
        len <= length_limit(protected),
    ensures
        header_of(header_bytes(ct, len), protected, false) == Ok::<
            (ContentType, u16),
            TlsErrorKind,
        >((ct, len)),
{
    reveal_with_fuel(be_bytes, 3);
    let h = header_bytes(ct, len);
    assert(h[3] * 256 + h[4] == len);
}

/// A 64-bit record sequence number.
#[derive(Debug)]
pub struct SequenceNumber {
    value: u64,
}

impl View for SequenceNumber {
    type V = u64;

    closed spec fn view(&self) -> u64 {
        self.value
    }
}

impl SequenceNumber {
    pub fn new() -> (r: SequenceNumber)
        ensures
            r@ == 0,
    {
        SequenceNumber { value: 0 }
    }

    pub fn current(&self) -> (r: u64)
        ensures
            r == self@,
    {
        self.value
    }

    /// Takes the number for the next record: it is the current one, and the
    /// counter moves up by exactly one. The last value is never handed out, so
    /// the counter cannot wrap.
    pub fn advance(&mut self) -> (r: Result<u64, TlsErrorKind>)
        ensures
            old(self)@ < u64::MAX ==> r == Ok::<u64, TlsErrorKind>(old(self)@) && final(self)@
                == old(self)@ + 1,
            old(self)@ == u64::MAX ==> r == Err::<u64, TlsErrorKind>(TlsErrorKind::InternalError)
                && final(self)@ == old(self)@,
    {
        if self.value == u64::MAX {
            return Err(TlsErrorKind::InternalError);
        }
        let v = self.value;
        self.value = v + 1;
        Ok(v)
    }

    pub fn reset(&mut self)
        ensures
            final(self)@ == 0,
    {
        self.value = 0;
    }
}

/// The `n` low bytes of `v`, most significant first.
pub fn be_bytes_of(v: u64, n: usize) -> (r: Vec<u8>)
    ensures
        r@ == be_bytes(v as nat, n as nat),
    decreases n,
{
    if n == 0 {
        return Vec::new();
    }
    let mut r = be_bytes_of(v / 256, n - 1);
    r.push((v % 256) as u8);
    r
}

/// The 12-byte nonce of record `seq`: the sequence number, big-endian,
/// right-aligned, XORed with an all-zero implicit IV.
pub open spec fn nonce_of(seq: u64) -> Seq<u8> {
    seq![0u8, 0, 0, 0] + be_bytes(seq as nat, 8)
}

/// The additional data of record `seq`: sequence number, content type,
/// version and plaintext length.
pub open spec fn aad_of(seq: u64, ct: ContentType, len: u16) -> Seq<u8> {
    be_bytes(seq as nat, 8) + header_bytes(ct, len)
}

pub fn nonce(seq: u64) -> (r: Vec<u8>)
    ensures
        r@ == nonce_of(seq),
        r@.len() == 12,
{
    proof {
        lemma_be_bytes_len(seq as nat, 8);
    }
    let mut r = vec![0u8, 0, 0, 0];
    let mut s = be_bytes_of(seq, 8);
    r.append(&mut s);
    assert(r@ =~= nonce_of(seq));
    r
}

pub fn additional_data(seq: u64, ct: ContentType, len: u16) -> (r: Vec<u8>)
    ensures
        r@ == aad_of(seq, ct, len),
{
    let mut r = be_bytes_of(seq, 8);
    let mut h = encode_header(ct, len);
    r.append(&mut h);
    assert(r@ =~= aad_of(seq, ct, len));
    r
}

/// One direction of the record layer: the AEAD key once one is installed,
/// and the sequence number of the next protected record.
#[derive(Debug)]
pub struct Direction {
    key: Option<Vec<u8>>,
    seq: SequenceNumber,
}

impl Direction {
    pub closed spec fn spec_key(&self) -> Option<Seq<u8>> {
        match self.key {
            Some(k) => Some(k@),
            None => None,
        }
    }

    pub closed spec fn spec_seq(&self) -> u64 {
        self.seq@
    }

    /// An installed key is 32 bytes.
    pub closed spec fn wf(&self) -> bool {
        self.key matches Some(k) ==> k@.len() == 32
    }

    /// No key yet: records pass in the clear.
    pub fn new() -> (r: Direction)
        ensures
            r.wf(),
            r.spec_key() is None,
            r.spec_seq() == 0,
    {
        Direction { key: None, seq: SequenceNumber::new() }
    }

    /// Installs a new key; numbering starts again from zero.
    pub fn install(&mut self, key: Vec<u8>)
        requires
            key@.len() == 32,
        ensures
            final(self).wf(),
            final(self).spec_key() == Some(key@),
            final(self).spec_seq() == 0,
    {
        self.key = Some(key);
        self.seq.reset();
    }

    pub fn is_protected(&self) -> (r: bool)
        ensures
            r == self.spec_key() is Some,
    {
        self.key.is_some()
    }

    /// The nonce and additional data for the next protected record of type
    /// `ct` with `len` plaintext bytes; that record takes the current number.
    /// Before a key is installed records are not numbered.
    pub fn next_record(&mut self, ct: ContentType, len: u16) -> (r: Result<
        Option<(Vec<u8>, Vec<u8>)>,
        TlsErrorKind,
    >)
        requires
            old(self).wf(),
        ensures
            final(self).wf(),
            final(self).spec_key() == old(self).spec_key(),
            old(self).spec_key() is None ==> (r matches Ok(None) && final(self).spec_seq() == old(
                self,
            ).spec_seq()),
            old(self).spec_key() is Some && old(self).spec_seq() < u64::MAX ==> (r matches Ok(
                Some((n, a)),
            ) && n@ == nonce_of(old(self).spec_seq()) && a@ == aad_of(
                old(self).spec_seq(),
                ct,
                len,
            ) && final(self).spec_seq() == old(self).spec_seq() + 1),
            old(self).spec_key() is Some && old(self).spec_seq() == u64::MAX ==> r == Err::<
                Option<(Vec<u8>, Vec<u8>)>,
                TlsErrorKind,
            >(TlsErrorKind::InternalError),
    {
        if self.key.is_none() {
            return Ok(None);
        }
        let seq = match self.seq.advance() {
            Ok(s) => s,
            Err(e) => {
                return Err(e);
            },
        };
        Ok(Some((nonce(seq), additional_data(seq, ct, len))))
    }

    /// The record that carries `payload`: its header, then the payload, sealed
    /// under the current number once a key is installed.
    pub fn write_record(&mut self, ct: ContentType, payload: &[u8]) -> (r: Result<
        Vec<u8>,
        TlsErrorKind,
    >)
        requires
            old(self).wf(),
            payload@.len() <= MAX_PLAINTEXT,
        ensures
            final(self).wf(),
            final(self).spec_key() == old(self).spec_key(),
            match old(self).spec_key() {
                None => r matches Ok(v) && v@ == header_bytes(ct, payload@.len() as u16) + payload@
                    && final(self).spec_seq() == old(self).spec_seq(),
                Some(k) => if old(self).spec_seq() < u64::MAX {
                    r matches Ok(v) && v@ == header_bytes(ct, (payload@.len() + TAG_LEN) as u16)
                        + sealed(
                        k,
                        nonce_of(old(self).spec_seq()),
                        aad_of(old(self).spec_seq(), ct, payload@.len() as u16),
                        payload@,
                    ) && final(self).spec_seq() == old(self).spec_seq() + 1
                } else {
                    r == Err::<Vec<u8>, TlsErrorKind>(TlsErrorKind::InternalError)
                },
            },
    {
        let len = payload.len() as u16;
        proof {
            lemma_be_bytes_len(self.spec_seq() as nat, 8);
        }
        match self.next_record(ct, len) {
            Err(e) => Err(e),
            Ok(None) => {
                let mut out = encode_header(ct, len);
                let mut i: usize = 0;
                while i < payload.len()
                    invariant
                        i <= payload@.len(),
                        out@ == header_bytes(ct, len) + payload@.subrange(0, i as int),
                    decreases payload.len() - i,
                {
                    out.push(payload[i]);
                    i = i + 1;
                    assert(out@ =~= header_bytes(ct, len) + payload@.subrange(0, i as int));
                }
                assert(payload@.subrange(0, payload@.len() as int) =~= payload@);
                Ok(out)
            },
            Ok(Some((nonce, aad))) => {
                let key = match &self.key {
                    Some(k) => k,
                    None => {
                        return Err(TlsErrorKind::InternalError);
                    },
                };
                let mut body = seal(key.as_slice(), nonce.as_slice(), aad.as_slice(), payload);
                let mut out = encode_header(ct, len + TAG_LEN as u16);
                out.append(&mut body);
                Ok(out)
            },
        }
    }

    /// The plaintext of a received fragment of type `ct`. Once a key is
    /// installed the fragment is opened under the current number, with the
    /// additional data carrying the plaintext length; a tag that does not
    /// verify is `BadRecordMac` and leaves the number as it was.
    pub fn read_fragment(&mut self, ct: ContentType, fragment: &[u8]) -> (r: Result<
        Vec<u8>,
        TlsErrorKind,
    >)
        requires
            old(self).wf(),
            fragment@.len() <= MAX_CIPHERTEXT,
        ensures
            final(self).wf(),
            final(self).spec_key() == old(self).spec_key(),
            match old(self).spec_key() {
                None => r matches Ok(v) && v@ == fragment@ && final(self).spec_seq() == old(
                    self,
                ).spec_seq(),
                Some(k) => if fragment@.len() < TAG_LEN {
                    r == Err::<Vec<u8>, TlsErrorKind>(TlsErrorKind::BadRecordMac)
                        && final(self).spec_seq() == old(self).spec_seq()
                } else if old(self).spec_seq() == u64::MAX {
                    r == Err::<Vec<u8>, TlsErrorKind>(TlsErrorKind::InternalError)
                } else {
                    let s = old(self).spec_seq();
                    match opened(
                        k,
                        nonce_of(s),
                        aad_of(s, ct, (fragment@.len() - TAG_LEN) as u16),
                        fragment@,
                    ) {
                        Ok(p) => r matches Ok(v) && v@ == p && final(self).spec_seq() == s + 1,
                        Err(e) => r matches Err(x) && x == e && final(self).spec_seq() == s,
                    }
                },
            },
    {
        if self.key.is_none() {
            let mut out: Vec<u8> = Vec::new();
            let mut i: usize = 0;
            while i < fragment.len()
                invariant
                    i <= fragment@.len(),
                    out@ == fragment@.subrange(0, i as int),
                decreases fragment.len() - i,
            {
                out.push(fragment[i]);
                i = i + 1;
                assert(out@ =~= fragment@.subrange(0, i as int));
            }
            assert(fragment@.subrange(0, fragment@.len() as int) =~= fragment@);
            return Ok(out);
        }
        if fragment.len() < TAG_LEN {
            return Err(TlsErrorKind::BadRecordMac);
        }
        let s = self.seq.current();
        if s == u64::MAX {
            return Err(TlsErrorKind::InternalError);
        }
        let len = (fragment.len() - TAG_LEN) as u16;
        let nonce = nonce(s);
        let aad = additional_data(s, ct, len);
        let key = match &self.key {
            Some(k) => k,
            None => {
                return Err(TlsErrorKind::InternalError);
            },
        };
        match open(key.as_slice(), nonce.as_slice(), aad.as_slice(), fragment) {
            Ok(p) => {
                let _ = self.seq.advance();
                Ok(p)
            },
            Err(e) => Err(e),
        }
    }
}

} // verus!
