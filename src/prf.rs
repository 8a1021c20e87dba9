//! HMAC-SHA-256 (RFC 2104) and the TLS 1.2 PRF built on it (RFC 5246,
//! section 5), with the derivations this client makes from it.
use vstd::prelude::*;

use crate::handshake::VERIFY_DATA_LEN;
use crate::sha256::{lemma_sha256_len, sha256, sha256_digest, Sha256, MAX_MESSAGE_LEN};

verus! {

/// The SHA-256 block size.
pub const BLOCK_LEN: usize = 64;

/// The key, hashed if longer than a block, then zero-filled to a block.
pub open spec fn hmac_key_block(key: Seq<u8>) -> Seq<u8> {
    let k = if key.len() > BLOCK_LEN {
        sha256(key)
    } else {
        key
    };
    k + Seq::new((BLOCK_LEN - k.len()) as nat, |i: int| 0u8)
}

pub open spec fn xor_each(k: Seq<u8>, p: u8) -> Seq<u8> {
    Seq::new(k.len(), |i: int| k[i] ^ p)
}

/// HMAC-SHA-256 of `msg` under `key`.
#[verifier::opaque]
pub open spec fn hmac(key: Seq<u8>, msg: Seq<u8>) -> Seq<u8> {
    let k = hmac_key_block(key);
    sha256(xor_each(k, 0x5c) + sha256(xor_each(k, 0x36) + msg))
}

/// The longest key or message that HMAC here takes.
pub const MAX_HMAC_INPUT: u64 = 0x1fff_ffff_ffff_0000;

fn key_block(key: &[u8]) -> (r: Vec<u8>)
    requires
        key@.len() <= MAX_MESSAGE_LEN,
    ensures
        r@ == hmac_key_block(key@),
        r@.len() == BLOCK_LEN,
{
    let mut k: Vec<u8> = if key.len() > BLOCK_LEN {
        let d = sha256_digest(key);
        proof {
            lemma_sha256_len(key@);
        }
        d
    } else {
        let mut c: Vec<u8> = Vec::new();
        let mut i: usize = 0;
        while i < key.len()
            invariant
                i <= key@.len(),
                c@ == key@.subrange(0, i as int),
            decreases key.len() - i,
        {
            c.push(key[i]);
            i = i + 1;
            assert(c@ =~= key@.subrange(0, i as int));
        }
        assert(key@.subrange(0, key@.len() as int) =~= key@);
        c
    };
    let ghost k0 = k@;
    let mut i: usize = k.len();
    while i < BLOCK_LEN
        invariant
            k0.len() <= i <= BLOCK_LEN,
            k@ == k0 + Seq::new((i - k0.len()) as nat, |j: int| 0u8),
        decreases BLOCK_LEN - i,
    {
        k.push(0);
        i = i + 1;
        assert(k@ =~= k0 + Seq::new((i - k0.len()) as nat, |j: int| 0u8));
    }
    k
}

fn xor_all(k: &Vec<u8>, p: u8) -> (r: Vec<u8>)
    ensures
        r@ == xor_each(k@, p),
{
    let mut r: Vec<u8> = Vec::new();
    let mut i: usize = 0;
    while i < k.len()
        invariant
            i <= k@.len(),
            r@ == xor_each(k@.subrange(0, i as int), p),
        decreases k.len() - i,
    {
        r.push(k[i] ^ p);
        i = i + 1;
        assert(r@ =~= xor_each(k@.subrange(0, i as int), p));
    }
    assert(k@.subrange(0, k@.len() as int) =~= k@);
    r
}

/// HMAC-SHA-256 of `msg` under `key`.
pub fn hmac_sha256(key: &[u8], msg: &[u8]) -> (r: Vec<u8>)
    requires
        key@.len() <= MAX_HMAC_INPUT,
        msg@.len() <= MAX_HMAC_INPUT,
    ensures
        r@ == hmac(key@, msg@),
        r@.len() == 32,
{
    let k = key_block(key);
    let ipad = xor_all(&k, 0x36);
    let opad = xor_all(&k, 0x5c);
    let mut inner = Sha256::new();
    inner.update(ipad.as_slice());
    inner.update(msg);
    assert(Seq::<u8>::empty() + ipad@ + msg@ =~= ipad@ + msg@);
    let inner_digest = inner.finalize();
    proof {
        lemma_sha256_len(ipad@ + msg@);
    }
    let mut outer = Sha256::new();
    outer.update(opad.as_slice());
    outer.update(inner_digest.as_slice());
    assert(Seq::<u8>::empty() + opad@ + inner_digest@ =~= opad@ + inner_digest@);
    let r = outer.finalize();
    proof {
        lemma_sha256_len(opad@ + inner_digest@);
        reveal(hmac);
    }
    r
}

/// A(i) of P_SHA256: A(0) is the seed, A(i) the HMAC of A(i-1).
pub open spec fn chain_value(secret: Seq<u8>, seed: Seq<u8>, i: nat) -> Seq<u8>
    decreases i,
{
    if i == 0 {
        seed
    } else {
        hmac(secret, chain_value(secret, seed, (i - 1) as nat))
    }
}

/// The first `blocks` outputs of P_SHA256: HMAC(secret, A(i) ‖ seed), i = 1, 2, ...
pub open spec fn p_sha256(secret: Seq<u8>, seed: Seq<u8>, blocks: nat) -> Seq<u8>
    decreases blocks,
{
    if blocks == 0 {
        seq![]
    } else {
        p_sha256(secret, seed, (blocks - 1) as nat) + hmac(
            secret,
            chain_value(secret, seed, blocks) + seed,
        )
    }
}

/// PRF(secret, label, seed), its first `n` bytes.
pub open spec fn prf(secret: Seq<u8>, label: Seq<u8>, seed: Seq<u8>, n: nat) -> Seq<u8> {
    p_sha256(secret, label + seed, (n + 31) / 32).subrange(0, n as int)
}

/// The longest label and seed together that the PRF here takes: with a chain
/// value before it, the HMAC input must still fit in memory.
pub const MAX_SEED_LEN: usize = 0xffff_0000;

pub proof fn lemma_hmac_len(key: Seq<u8>, msg: Seq<u8>)
    ensures
        hmac(key, msg).len() == 32,
{
    reveal(hmac);
    let k = hmac_key_block(key);
    lemma_sha256_len(xor_each(k, 0x5c) + sha256(xor_each(k, 0x36) + msg));
}

proof fn lemma_p_sha256_len(secret: Seq<u8>, seed: Seq<u8>, blocks: nat)
    ensures
        p_sha256(secret, seed, blocks).len() == 32 * blocks,
    decreases blocks,
{
    if blocks > 0 {
        lemma_p_sha256_len(secret, seed, (blocks - 1) as nat);
        lemma_hmac_len(secret, chain_value(secret, seed, blocks) + seed);
    }
}

/// The first `n` bytes of PRF(secret, label, seed).
pub fn tls_prf(secret: &[u8], label: &[u8], seed: &[u8], n: usize) -> (r: Vec<u8>)
    requires
        secret@.len() <= MAX_HMAC_INPUT,
        label@.len() + seed@.len() <= MAX_SEED_LEN,
        n <= MAX_SEED_LEN,
    ensures
        r@ == prf(secret@, label@, seed@, n as nat),
        r@.len() == n,
{
    let mut s: Vec<u8> = Vec::new();
    let mut i: usize = 0;
    while i < label.len()
        invariant
            i <= label@.len(),
            s@ == label@.subrange(0, i as int),
        decreases label.len() - i,
    {
        s.push(label[i]);
        i = i + 1;
        assert(s@ =~= label@.subrange(0, i as int));
    }
    let mut j: usize = 0;
    while j < seed.len()
        invariant
            j <= seed@.len(),
            label@.len() + seed@.len() <= MAX_SEED_LEN,
            s@ == label@ + seed@.subrange(0, j as int),
        decreases seed.len() - j,
    {
        s.push(seed[j]);
        j = j + 1;
        assert(s@ =~= label@ + seed@.subrange(0, j as int));
    }
    assert(s@ =~= label@ + seed@);
    let blocks = (n + 31) / 32;
    let mut out: Vec<u8> = Vec::new();
    let mut a: Vec<u8> = copy_bytes(&s);
    let mut b: usize = 0;
    while b < blocks
        invariant
            b <= blocks,
            blocks == (n + 31) / 32,
            n <= MAX_SEED_LEN,
            secret@.len() <= MAX_HMAC_INPUT,
            s@.len() <= MAX_SEED_LEN,
            a@ == chain_value(secret@, s@, b as nat),
            a@.len() <= MAX_SEED_LEN,
            out@ == p_sha256(secret@, s@, b as nat),
        decreases blocks - b,
    {
        a = hmac_sha256(secret, a.as_slice());
        let mut input = copy_bytes(&a);
        let mut rest = copy_bytes(&s);
        input.append(&mut rest);
        let mut block = hmac_sha256(secret, input.as_slice());
        out.append(&mut block);
        b = b + 1;
    }
    proof {
        lemma_p_sha256_len(secret@, s@, blocks as nat);
    }
    out.truncate(n);
    out
}

fn copy_bytes(v: &Vec<u8>) -> (r: Vec<u8>)
    ensures
        r@ == v@,
{
    crate::der::copy_vec(v)
}

/// The label "master secret".
pub open spec fn master_secret_label() -> Seq<u8> {
    seq![0x6du8, 0x61, 0x73, 0x74, 0x65, 0x72, 0x20, 0x73, 0x65, 0x63, 0x72, 0x65, 0x74]
}

/// The label "key expansion".
pub open spec fn key_expansion_label() -> Seq<u8> {
    seq![0x6bu8, 0x65, 0x79, 0x20, 0x65, 0x78, 0x70, 0x61, 0x6e, 0x73, 0x69, 0x6f, 0x6e]
}

/// The label "client finished".
pub open spec fn client_finished_label() -> Seq<u8> {
    seq![0x63u8, 0x6c, 0x69, 0x65, 0x6e, 0x74, 0x20, 0x66, 0x69, 0x6e, 0x69, 0x73, 0x68, 0x65, 0x64]
}

/// The label "server finished".
pub open spec fn server_finished_label() -> Seq<u8> {
    seq![0x73u8, 0x65, 0x72, 0x76, 0x65, 0x72, 0x20, 0x66, 0x69, 0x6e, 0x69, 0x73, 0x68, 0x65, 0x64]
}

/// master_secret = PRF(pms, "master secret", client_random ‖ server_random)[0..48].
pub fn master_secret(pms: &[u8], client_random: &[u8], server_random: &[u8]) -> (r: Vec<u8>)
    requires
        pms@.len() <= MAX_HMAC_INPUT,
        client_random@.len() == 32,
        server_random@.len() == 32,
    ensures
        r@ == prf(pms@, master_secret_label(), client_random@ + server_random@, 48),
        r@.len() == 48,
{
    let label = vec![0x6du8, 0x61, 0x73, 0x74, 0x65, 0x72, 0x20, 0x73, 0x65, 0x63, 0x72, 0x65, 0x74];
    assert(label@ =~= master_secret_label());
    let seed = concat(client_random, server_random);
    tls_prf(pms, label.as_slice(), seed.as_slice(), 48)
}

/// key_block = PRF(master_secret, "key expansion", server_random ‖ client_random)[0..64].
pub fn key_block_bytes(master: &[u8], server_random: &[u8], client_random: &[u8]) -> (r: Vec<u8>)
    requires
        master@.len() == 48,
        client_random@.len() == 32,
        server_random@.len() == 32,
    ensures
        r@ == prf(master@, key_expansion_label(), server_random@ + client_random@, 64),
        r@.len() == 64,
{
    let label = vec![0x6bu8, 0x65, 0x79, 0x20, 0x65, 0x78, 0x70, 0x61, 0x6e, 0x73, 0x69, 0x6f, 0x6e];
    assert(label@ =~= key_expansion_label());
    let seed = concat(server_random, client_random);
    tls_prf(master, label.as_slice(), seed.as_slice(), 64)
}

/// verify_data = PRF(master_secret, label, SHA-256(transcript))[0..12], where the
/// label is "client finished" or "server finished".
pub fn verify_data(master: &[u8], client: bool, transcript: &[u8]) -> (r: Vec<u8>)
    requires
        master@.len() == 48,
        transcript@.len() <= MAX_MESSAGE_LEN,
    ensures
        r@ == prf(
            master@,
            if client {
                client_finished_label()
            } else {
                server_finished_label()
            },
            sha256(transcript@),
            12,
        ),
        r@.len() == VERIFY_DATA_LEN,
{
    let label = if client {
        let l = vec![
            0x63u8, 0x6c, 0x69, 0x65, 0x6e, 0x74, 0x20, 0x66, 0x69, 0x6e, 0x69, 0x73, 0x68, 0x65,
            0x64,
        ];
        assert(l@ =~= client_finished_label());
        l
    } else {
        let l = vec![
            0x73u8, 0x65, 0x72, 0x76, 0x65, 0x72, 0x20, 0x66, 0x69, 0x6e, 0x69, 0x73, 0x68, 0x65,
            0x64,
        ];
        assert(l@ =~= server_finished_label());
        l
    };
    let digest = sha256_digest(transcript);
    proof {
        lemma_sha256_len(transcript@);
    }
    tls_prf(master, label.as_slice(), digest.as_slice(), 12)
}

fn concat(a: &[u8], b: &[u8]) -> (r: Vec<u8>)
    requires
        a@.len() + b@.len() <= MAX_SEED_LEN,
    ensures
        r@ == a@ + b@,
{
    let mut r: Vec<u8> = Vec::new();
    let mut i: usize = 0;
    while i < a.len()
        invariant
            i <= a@.len(),
            r@ == a@.subrange(0, i as int),
        decreases a.len() - i,
    {
        r.push(a[i]);
        i = i + 1;
        assert(r@ =~= a@.subrange(0, i as int));
    }
    let mut j: usize = 0;
    while j < b.len()
        invariant
            j <= b@.len(),
            i == a@.len(),
            r@ == a@ + b@.subrange(0, j as int),
        decreases b.len() - j,
    {
        r.push(b[j]);
        j = j + 1;
        assert(r@ =~= a@ + b@.subrange(0, j as int));
    }
    assert(a@.subrange(0, a@.len() as int) =~= a@);
    assert(b@.subrange(0, b@.len() as int) =~= b@);
    r
}

/// The PRF is a function of its inputs: the same secret, label and seed give
/// the same bytes, and asking for fewer bytes gives a prefix.
pub proof fn lemma_prf_prefix(secret: Seq<u8>, label: Seq<u8>, seed: Seq<u8>, n: nat, m: nat)
    requires
        n <= m,
    ensures
        prf(secret, label, seed, n) == prf(secret, label, seed, m).subrange(0, n as int),
{
    let s = label + seed;
    lemma_p_sha256_prefix(secret, s, (n + 31) / 32, (m + 31) / 32);
    lemma_p_sha256_len(secret, s, (n + 31) / 32);
    lemma_p_sha256_len(secret, s, (m + 31) / 32);
    assert(prf(secret, label, seed, n) =~= prf(secret, label, seed, m).subrange(0, n as int));
}

proof fn lemma_p_sha256_prefix(secret: Seq<u8>, seed: Seq<u8>, a: nat, b: nat)
    requires
        a <= b,
    ensures
        p_sha256(secret, seed, b).subrange(0, 32 * a as int) == p_sha256(secret, seed, a),
    decreases b,
{
    lemma_p_sha256_len(secret, seed, a);
    lemma_p_sha256_len(secret, seed, b);
    if a == b {
        assert(p_sha256(secret, seed, b).subrange(0, 32 * a as int) =~= p_sha256(secret, seed, a));
    } else {
        let c = (b - 1) as nat;
        lemma_p_sha256_prefix(secret, seed, a, c);
        lemma_p_sha256_len(secret, seed, c);
        assert(p_sha256(secret, seed, b).subrange(0, 32 * a as int) =~= p_sha256(
            secret,
            seed,
            c,
        ).subrange(0, 32 * a as int));
    }
}

} // verus!
