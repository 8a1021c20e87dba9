//! ChaCha20-Poly1305 authenticated encryption (RFC 7539, section 2.8).
use vstd::prelude::*;

use crate::alert::TlsErrorKind;
use crate::chacha20::{chacha20_block, chacha20_block_bytes, chacha20_xor, chacha20_xor_bytes, lemma_xor_twice};
use crate::poly1305::{poly1305, poly1305_tag};

verus! {

/// The length of a tag.
pub const TAG_LEN: usize = 16;

/// The longest plaintext: the 32-bit block counter starts at 1.
pub const MAX_PLAINTEXT_LEN: usize = 0xffff_0000;

/// The `n` low bytes of `v`, least significant first.
pub open spec fn le_bytes(v: nat, n: nat) -> Seq<u8>
    decreases n,
{
    if n == 0 {
        seq![]
    } else {
        seq![(v % 256) as u8] + le_bytes(v / 256, (n - 1) as nat)
    }
}

/// Zeros up to the next multiple of 16.
pub open spec fn pad16(len: nat) -> Seq<u8> {
    Seq::new(((16 - len % 16) % 16) as nat, |i: int| 0u8)
}

/// What the tag covers.
pub open spec fn mac_data(aad: Seq<u8>, ct: Seq<u8>) -> Seq<u8> {
    aad + pad16(aad.len()) + ct + pad16(ct.len()) + le_bytes(aad.len(), 8) + le_bytes(ct.len(), 8)
}

/// The Poly1305 key: the first half of keystream block 0.
pub open spec fn one_time_key(key: Seq<u8>, nonce: Seq<u8>) -> Seq<u8> {
    chacha20_block(key, 0, nonce).subrange(0, 32)
}

pub open spec fn tag_of(key: Seq<u8>, nonce: Seq<u8>, aad: Seq<u8>, ct: Seq<u8>) -> Seq<u8> {
    poly1305(one_time_key(key, nonce), mac_data(aad, ct))
}

/// Ciphertext (the keystream from block 1 on) followed by the tag.
pub open spec fn sealed(key: Seq<u8>, nonce: Seq<u8>, aad: Seq<u8>, pt: Seq<u8>) -> Seq<u8> {
    let ct = chacha20_xor(key, 1, nonce, pt);
    ct + tag_of(key, nonce, aad, ct)
}

/// The plaintext, where the tag verifies; `BadRecordMac` otherwise.
pub open spec fn opened(key: Seq<u8>, nonce: Seq<u8>, aad: Seq<u8>, data: Seq<u8>) -> Result<
    Seq<u8>,
    TlsErrorKind,
> {
    if data.len() < TAG_LEN {
        Err(TlsErrorKind::BadRecordMac)
    } else {
        let ct = data.subrange(0, data.len() - TAG_LEN);
        let tag = data.subrange(data.len() - TAG_LEN, data.len() as int);
        if tag_of(key, nonce, aad, ct) != tag {
            Err(TlsErrorKind::BadRecordMac)
        } else {
            Ok(chacha20_xor(key, 1, nonce, ct))
        }
    }
}

fn le_bytes_of(v: u64, n: usize) -> (r: Vec<u8>)
    ensures
        r@ == le_bytes(v as nat, n as nat),
    decreases n,
{
    if n == 0 {
        return Vec::new();
    }
    let mut r = vec![(v % 256) as u8];
    let mut rest = le_bytes_of(v / 256, n - 1);
    r.append(&mut rest);
    r
}

fn push_all(out: &mut Vec<u8>, b: &[u8])
    ensures
        final(out)@ == old(out)@ + b@,
{
    let mut i: usize = 0;
    while i < b.len()
        invariant
            i <= b@.len(),
            out@ == old(out)@ + b@.subrange(0, i as int),
        decreases b.len() - i,
    {
        out.push(b[i]);
        i = i + 1;
        assert(out@ =~= old(out)@ + b@.subrange(0, i as int));
    }
    assert(b@.subrange(0, b@.len() as int) =~= b@);
}

fn push_pad16(out: &mut Vec<u8>, len: usize)
    ensures
        final(out)@ == old(out)@ + pad16(len as nat),
{
    let n = (16 - len % 16) % 16;
    let mut i: usize = 0;
    while i < n
        invariant
            i <= n,
            n == (16 - len % 16) % 16,
            out@ == old(out)@ + Seq::new(i as nat, |j: int| 0u8),
        decreases n - i,
    {
        out.push(0);
        i = i + 1;
        assert(out@ =~= old(out)@ + Seq::new(i as nat, |j: int| 0u8));
    }
}

fn tag_bytes(key: &[u8], nonce: &[u8], aad: &[u8], ct: &[u8]) -> (r: Vec<u8>)
    requires
        key@.len() == 32,
        nonce@.len() == 12,
    ensures
        r@ == tag_of(key@, nonce@, aad@, ct@),
{
    let block0 = chacha20_block_bytes(key, 0, nonce);
    let mut otk: Vec<u8> = Vec::new();
    push_all(&mut otk, &block0.as_slice()[0..32]);
    assert(otk@ =~= one_time_key(key@, nonce@));
    let mut data: Vec<u8> = Vec::new();
    push_all(&mut data, aad);
    push_pad16(&mut data, aad.len());
    push_all(&mut data, ct);
    push_pad16(&mut data, ct.len());
    let mut l1 = le_bytes_of(aad.len() as u64, 8);
    data.append(&mut l1);
    let mut l2 = le_bytes_of(ct.len() as u64, 8);
    data.append(&mut l2);
    assert(data@ =~= mac_data(aad@, ct@));
    poly1305_tag(otk.as_slice(), data.as_slice())
}

/// Compares two tags, looking at every byte whatever the earlier ones held.
fn tags_equal(a: &[u8], b: &[u8]) -> (r: bool)
    requires
        a@.len() == TAG_LEN,
        b@.len() == TAG_LEN,
    ensures
        r == (a@ == b@),
{
    let mut diff: u8 = 0;
    let mut i: usize = 0;
    while i < TAG_LEN
        invariant
            i <= TAG_LEN,
            a@.len() == TAG_LEN,
            b@.len() == TAG_LEN,
            diff == 0 <==> forall|j: int| 0 <= j < i ==> a@[j] == b@[j],
        decreases TAG_LEN - i,
    {
        let x = a[i];
        let y = b[i];
        let d = diff;
        assert((d | (x ^ y)) == 0 <==> (d == 0 && x == y)) by (bit_vector);
        diff = d | (x ^ y);
        i = i + 1;
    }
    assert(diff == 0 ==> a@ =~= b@);
    diff == 0
}

pub proof fn lemma_tag_len(key: Seq<u8>, nonce: Seq<u8>, aad: Seq<u8>, ct: Seq<u8>)
    ensures
        tag_of(key, nonce, aad, ct).len() == TAG_LEN,
{
}

/// Encrypts and authenticates `plaintext`, with `aad` authenticated only.
pub fn seal(key: &[u8], nonce: &[u8], aad: &[u8], plaintext: &[u8]) -> (r: Vec<u8>)
    requires
        key@.len() == 32,
        nonce@.len() == 12,
        plaintext@.len() <= MAX_PLAINTEXT_LEN,
    ensures
        r@ == sealed(key@, nonce@, aad@, plaintext@),
{
    let mut ct = chacha20_xor_bytes(key, 1, nonce, plaintext);
    let mut tag = tag_bytes(key, nonce, aad, ct.as_slice());
    ct.append(&mut tag);
    ct
}

/// Checks the tag in constant time, then decrypts.
pub fn open(key: &[u8], nonce: &[u8], aad: &[u8], data: &[u8]) -> (r: Result<Vec<u8>, TlsErrorKind>)
    requires
        key@.len() == 32,
        nonce@.len() == 12,
        data@.len() <= MAX_PLAINTEXT_LEN + TAG_LEN,
    ensures
        match opened(key@, nonce@, aad@, data@) {
            Ok(p) => r matches Ok(v) && v@ == p,
            Err(e) => r matches Err(x) && x == e,
        },
{
    if data.len() < TAG_LEN {
        return Err(TlsErrorKind::BadRecordMac);
    }
    let split = data.len() - TAG_LEN;
    let ct = &data[0..split];
    let tag = &data[split..data.len()];
    let expected = tag_bytes(key, nonce, aad, ct);
    proof {
        lemma_tag_len(key@, nonce@, aad@, ct@);
    }
    if !tags_equal(expected.as_slice(), tag) {
        return Err(TlsErrorKind::BadRecordMac);
    }
    Ok(chacha20_xor_bytes(key, 1, nonce, ct))
}

/// Opening what was sealed under the same key, nonce and additional data
/// gives the plaintext back.
pub proof fn lemma_open_sealed(key: Seq<u8>, nonce: Seq<u8>, aad: Seq<u8>, pt: Seq<u8>)
    ensures
        opened(key, nonce, aad, sealed(key, nonce, aad, pt)) == Ok::<Seq<u8>, TlsErrorKind>(pt),
{
    let ct = chacha20_xor(key, 1, nonce, pt);
    let data = sealed(key, nonce, aad, pt);
    lemma_tag_len(key, nonce, aad, ct);
    assert(data.subrange(0, data.len() - TAG_LEN) =~= ct);
    assert(data.subrange(data.len() - TAG_LEN, data.len() as int) =~= tag_of(key, nonce, aad, ct));
    lemma_xor_twice(key, 1, nonce, pt);
}

/// A sealed record whose tag has any one bit flipped is refused.
pub proof fn lemma_tag_bit_flip_refused(
    key: Seq<u8>,
    nonce: Seq<u8>,
    aad: Seq<u8>,
    pt: Seq<u8>,
    i: int,
    bit: u8,
)
    requires
        0 <= i < TAG_LEN,
        bit < 8,
    ensures
        ({
            let data = sealed(key, nonce, aad, pt);
            let j = data.len() - TAG_LEN + i;
            opened(key, nonce, aad, data.update(j, data[j] ^ (1u8 << bit))) == Err::<
                Seq<u8>,
                TlsErrorKind,
            >(TlsErrorKind::BadRecordMac)
        }),
{
    let ct = chacha20_xor(key, 1, nonce, pt);
    let data = sealed(key, nonce, aad, pt);
    lemma_tag_len(key, nonce, aad, ct);
    let j = data.len() - TAG_LEN + i;
    let b = data[j];
    let flipped = data.update(j, b ^ (1u8 << bit));
    assert(b ^ (1u8 << bit) != b) by (bit_vector)
        requires
            bit < 8,
    ;
    assert(flipped.subrange(0, flipped.len() - TAG_LEN) =~= ct);
    let tag = flipped.subrange(flipped.len() - TAG_LEN, flipped.len() as int);
    assert(tag[i] != tag_of(key, nonce, aad, ct)[i]);
}

} // verus!
