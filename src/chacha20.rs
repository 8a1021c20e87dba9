//! The ChaCha20 stream cipher (RFC 7539, IETF variant): 32-byte key, 12-byte
//! nonce, 32-bit block counter.
use vstd::prelude::*;

use crate::sha256::add32;

verus! {

pub open spec fn rotl(x: u32, n: u32) -> u32 {
    (x << n) | (x >> (32 - n) as u32)
}

/// The quarter round on words `a`, `b`, `c`, `d` of the state.
pub open spec fn quarter_round(s: Seq<u32>, a: int, b: int, c: int, d: int) -> Seq<u32> {
    let a1 = add32(s[a], s[b]);
    let d1 = rotl(s[d] ^ a1, 16);
    let c1 = add32(s[c], d1);
    let b1 = rotl(s[b] ^ c1, 12);
    let a2 = add32(a1, b1);
    let d2 = rotl(d1 ^ a2, 8);
    let c2 = add32(c1, d2);
    let b2 = rotl(b1 ^ c2, 7);
    s.update(a, a2).update(b, b2).update(c, c2).update(d, d2)
}

/// A column round, then a diagonal round.
pub open spec fn double_round(s: Seq<u32>) -> Seq<u32> {
    let s = quarter_round(s, 0, 4, 8, 12);
    let s = quarter_round(s, 1, 5, 9, 13);
    let s = quarter_round(s, 2, 6, 10, 14);
    let s = quarter_round(s, 3, 7, 11, 15);
    let s = quarter_round(s, 0, 5, 10, 15);
    let s = quarter_round(s, 1, 6, 11, 12);
    let s = quarter_round(s, 2, 7, 8, 13);
    quarter_round(s, 3, 4, 9, 14)
}

pub open spec fn double_rounds(s: Seq<u32>, n: nat) -> Seq<u32>
    decreases n,
{
    if n == 0 {
        s
    } else {
        double_round(double_rounds(s, (n - 1) as nat))
    }
}

/// Word `i` of a byte string, little-endian.
pub open spec fn le_word(b: Seq<u8>, i: int) -> u32 {
    (b[4 * i] + b[4 * i + 1] * 0x100 + b[4 * i + 2] * 0x10000 + b[4 * i + 3] * 0x1000000) as u32
}

/// The initial state: constants, key, counter, nonce.
pub open spec fn initial_state(key: Seq<u8>, counter: u32, nonce: Seq<u8>) -> Seq<u32> {
    seq![0x61707865u32, 0x3320646e, 0x79622d32, 0x6b206574] + Seq::new(
        8,
        |i: int| le_word(key, i),
    ) + seq![counter] + Seq::new(3, |i: int| le_word(nonce, i))
}

/// The four bytes of `w`, least significant first.
pub open spec fn word_le_bytes(w: u32) -> Seq<u8> {
    seq![(w % 0x100) as u8, (w / 0x100 % 0x100) as u8, (w / 0x10000 % 0x100) as u8, (w / 0x1000000) as u8]
}

pub open spec fn words_le(ws: Seq<u32>) -> Seq<u8>
    decreases ws.len(),
{
    if ws.len() == 0 {
        seq![]
    } else {
        words_le(ws.drop_last()) + word_le_bytes(ws.last())
    }
}

/// One 64-byte block of keystream.
pub open spec fn chacha20_block(key: Seq<u8>, counter: u32, nonce: Seq<u8>) -> Seq<u8> {
    let init = initial_state(key, counter, nonce);
    let w = double_rounds(init, 10);
    words_le(Seq::new(16, |i: int| add32(w[i], init[i])))
}

/// `msg` XORed with the keystream that starts at block `counter`.
pub open spec fn chacha20_xor(key: Seq<u8>, counter: u32, nonce: Seq<u8>, msg: Seq<u8>) -> Seq<u8> {
    Seq::new(
        msg.len(),
        |i: int| msg[i] ^ chacha20_block(key, (counter + i / 64) as u32, nonce)[i % 64],
    )
}

pub proof fn lemma_words_le_len(ws: Seq<u32>)
    ensures
        words_le(ws).len() == 4 * ws.len(),
    decreases ws.len(),
{
    if ws.len() > 0 {
        lemma_words_le_len(ws.drop_last());
    }
}

/// XORing with the same keystream twice gives the message back.
pub proof fn lemma_xor_twice(key: Seq<u8>, counter: u32, nonce: Seq<u8>, msg: Seq<u8>)
    ensures
        chacha20_xor(key, counter, nonce, chacha20_xor(key, counter, nonce, msg)) == msg,
{
    let once = chacha20_xor(key, counter, nonce, msg);
    assert forall|i: int| 0 <= i < msg.len() implies #[trigger] chacha20_xor(
        key,
        counter,
        nonce,
        once,
    )[i] == msg[i] by {
        let k = chacha20_block(key, (counter + i / 64) as u32, nonce)[i % 64];
        let m = msg[i];
        assert((m ^ k) ^ k == m) by (bit_vector);
    }
    assert(chacha20_xor(key, counter, nonce, once) =~= msg);
}

fn rotl_exec(x: u32, n: u32) -> (r: u32)
    requires
        0 < n < 32,
    ensures
        r == rotl(x, n),
{
    (x << n) | (x >> (32 - n))
}

fn quarter_round_exec(s: &mut Vec<u32>, a: usize, b: usize, c: usize, d: usize)
    requires
        old(s)@.len() == 16,
        a < 16,
        b < 16,
        c < 16,
        d < 16,
    ensures
        final(s)@ == quarter_round(old(s)@, a as int, b as int, c as int, d as int),
{
    let a1 = s[a].wrapping_add(s[b]);
    let d1 = rotl_exec(s[d] ^ a1, 16);
    let c1 = s[c].wrapping_add(d1);
    let b1 = rotl_exec(s[b] ^ c1, 12);
    let a2 = a1.wrapping_add(b1);
    let d2 = rotl_exec(d1 ^ a2, 8);
    let c2 = c1.wrapping_add(d2);
    let b2 = rotl_exec(b1 ^ c2, 7);
    s.set(a, a2);
    s.set(b, b2);
    s.set(c, c2);
    s.set(d, d2);
}

fn le_word_exec(b: &[u8], i: usize) -> (r: u32)
    requires
        i < 8,
        4 * i + 3 < b@.len(),
    ensures
        r == le_word(b@, i as int),
{
    b[4 * i] as u32 + b[4 * i + 1] as u32 * 0x100 + b[4 * i + 2] as u32 * 0x10000 + b[4 * i + 3]
        as u32 * 0x1000000
}

/// One 64-byte block of keystream.
pub fn chacha20_block_bytes(key: &[u8], counter: u32, nonce: &[u8]) -> (r: Vec<u8>)
    requires
        key@.len() == 32,
        nonce@.len() == 12,
    ensures
        r@ == chacha20_block(key@, counter, nonce@),
        r@.len() == 64,
{
    let mut init: Vec<u32> = vec![0x61707865u32, 0x3320646e, 0x79622d32, 0x6b206574];
    let mut i: usize = 0;
    while i < 8
        invariant
            i <= 8,
            key@.len() == 32,
            init@ == seq![0x61707865u32, 0x3320646e, 0x79622d32, 0x6b206574] + Seq::new(
                i as nat,
                |j: int| le_word(key@, j),
            ),
        decreases 8 - i,
    {
        init.push(le_word_exec(key, i));
        i = i + 1;
        assert(init@ =~= seq![0x61707865u32, 0x3320646e, 0x79622d32, 0x6b206574] + Seq::new(
            i as nat,
            |j: int| le_word(key@, j),
        ));
    }
    init.push(counter);
    init.push(le_word_exec(nonce, 0));
    init.push(le_word_exec(nonce, 1));
    init.push(le_word_exec(nonce, 2));
    let ghost start = initial_state(key@, counter, nonce@);
    assert(init@ =~= start);
    let mut w = crate::der::copy_vec(&init);
    let mut n: usize = 0;
    while n < 10
        invariant
            n <= 10,
            w@ == double_rounds(start, n as nat),
            w@.len() == 16,
        decreases 10 - n,
    {
        quarter_round_exec(&mut w, 0, 4, 8, 12);
        quarter_round_exec(&mut w, 1, 5, 9, 13);
        quarter_round_exec(&mut w, 2, 6, 10, 14);
        quarter_round_exec(&mut w, 3, 7, 11, 15);
        quarter_round_exec(&mut w, 0, 5, 10, 15);
        quarter_round_exec(&mut w, 1, 6, 11, 12);
        quarter_round_exec(&mut w, 2, 7, 8, 13);
        quarter_round_exec(&mut w, 3, 4, 9, 14);
        n = n + 1;
    }
    let ghost fin = double_rounds(start, 10);
    let ghost sum = Seq::new(16, |j: int| add32(fin[j], start[j]));
    let mut out: Vec<u8> = Vec::new();
    let mut j: usize = 0;
    while j < 16
        invariant
            j <= 16,
            w@ == fin,
            init@ == start,
            fin.len() == 16,
            start.len() == 16,
            sum == Seq::new(16, |k: int| add32(fin[k], start[k])),
            out@ == words_le(sum.subrange(0, j as int)),
        decreases 16 - j,
    {
        let v = w[j].wrapping_add(init[j]);
        let bytes = vec![(v % 0x100) as u8, (v / 0x100 % 0x100) as u8, (v / 0x10000 % 0x100) as u8, (v / 0x1000000) as u8];
        let mut bytes = bytes;
        out.append(&mut bytes);
        j = j + 1;
        assert(sum.subrange(0, j as int).drop_last() =~= sum.subrange(0, j - 1));
    }
    assert(sum.subrange(0, 16) =~= sum);
    proof {
        lemma_words_le_len(sum);
    }
    out
}

/// XORs `msg` with the keystream that starts at block `counter`: encryption
/// and decryption alike.
pub fn chacha20_xor_bytes(key: &[u8], counter: u32, nonce: &[u8], msg: &[u8]) -> (r: Vec<u8>)
    requires
        key@.len() == 32,
        nonce@.len() == 12,
        counter + msg@.len() / 64 <= u32::MAX,
    ensures
        r@ == chacha20_xor(key@, counter, nonce@, msg@),
{
    let mut out: Vec<u8> = Vec::new();
    let mut pos: usize = 0;
    let mut block = chacha20_block_bytes(key, counter, nonce);
    while pos < msg.len()
        invariant
            pos <= msg@.len(),
            key@.len() == 32,
            nonce@.len() == 12,
            counter + msg@.len() / 64 <= u32::MAX,
            block@ == chacha20_block(
                key@,
                (counter + (if pos == 0 {
                    0
                } else {
                    (pos - 1) / 64
                })) as u32,
                nonce@,
            ),
            block@.len() == 64,
            out@ == chacha20_xor(key@, counter, nonce@, msg@).subrange(0, pos as int),
        decreases msg.len() - pos,
    {
        if pos % 64 == 0 && pos > 0 {
            block = chacha20_block_bytes(key, counter + (pos / 64) as u32, nonce);
        }
        out.push(msg[pos] ^ block[pos % 64]);
        pos = pos + 1;
        assert(out@ =~= chacha20_xor(key@, counter, nonce@, msg@).subrange(0, pos as int));
    }
    assert(out@ =~= chacha20_xor(key@, counter, nonce@, msg@));
    out
}

} // verus!
