//! SHA-256 (FIPS 180-4), one-shot and streaming.
use vstd::prelude::*;
use vstd::wrapping::u32_specs::wrapping_add;

use crate::record::{be_bytes, be_bytes_of, lemma_be_bytes_len};

verus! {

/// Addition modulo 2^32.
pub open spec fn add32(a: u32, b: u32) -> u32 {
    wrapping_add(a, b)
}

pub open spec fn rotr(x: u32, n: u32) -> u32 {
    (x >> n) | (x << (32 - n) as u32)
}

pub open spec fn ch(x: u32, y: u32, z: u32) -> u32 {
    (x & y) ^ (!x & z)
}

pub open spec fn maj(x: u32, y: u32, z: u32) -> u32 {
    (x & y) ^ (x & z) ^ (y & z)
}

pub open spec fn big_sigma0(x: u32) -> u32 {
    rotr(x, 2) ^ rotr(x, 13) ^ rotr(x, 22)
}

pub open spec fn big_sigma1(x: u32) -> u32 {
    rotr(x, 6) ^ rotr(x, 11) ^ rotr(x, 25)
}

pub open spec fn small_sigma0(x: u32) -> u32 {
    rotr(x, 7) ^ rotr(x, 18) ^ (x >> 3)
}

pub open spec fn small_sigma1(x: u32) -> u32 {
    rotr(x, 17) ^ rotr(x, 19) ^ (x >> 10)
}

/// The round constants K.
pub open spec fn round_constants() -> Seq<u32> {
    seq![
        0x428a2f98u32, 0x71374491, 0xb5c0fbcf, 0xe9b5dba5, 0x3956c25b, 0x59f111f1, 0x923f82a4, 0xab1c5ed5,
        0xd807aa98, 0x12835b01, 0x243185be, 0x550c7dc3, 0x72be5d74, 0x80deb1fe, 0x9bdc06a7, 0xc19bf174,
        0xe49b69c1, 0xefbe4786, 0x0fc19dc6, 0x240ca1cc, 0x2de92c6f, 0x4a7484aa, 0x5cb0a9dc, 0x76f988da,
        0x983e5152, 0xa831c66d, 0xb00327c8, 0xbf597fc7, 0xc6e00bf3, 0xd5a79147, 0x06ca6351, 0x14292967,
        0x27b70a85, 0x2e1b2138, 0x4d2c6dfc, 0x53380d13, 0x650a7354, 0x766a0abb, 0x81c2c92e, 0x92722c85,
        0xa2bfe8a1, 0xa81a664b, 0xc24b8b70, 0xc76c51a3, 0xd192e819, 0xd6990624, 0xf40e3585, 0x106aa070,
        0x19a4c116, 0x1e376c08, 0x2748774c, 0x34b0bcb5, 0x391c0cb3, 0x4ed8aa4a, 0x5b9cca4f, 0x682e6ff3,
        0x748f82ee, 0x78a5636f, 0x84c87814, 0x8cc70208, 0x90befffa, 0xa4506ceb, 0xbef9a3f7, 0xc67178f2,
    ]
}

/// The initial hash value H(0).
pub open spec fn initial_hash() -> Seq<u32> {
    seq![
        0x6a09e667u32, 0xbb67ae85, 0x3c6ef372, 0xa54ff53a, 0x510e527f, 0x9b05688c, 0x1f83d9ab, 0x5be0cd19,
    ]
}

/// Word `i` of a block, big-endian.
pub open spec fn block_word(b: Seq<u8>, i: int) -> u32 {
    (b[4 * i] * 0x1000000 + b[4 * i + 1] * 0x10000 + b[4 * i + 2] * 0x100 + b[4 * i + 3]) as u32
}

/// The message schedule W of a block.
pub open spec fn schedule(b: Seq<u8>, t: nat) -> u32
    decreases t,
{
    if t < 16 {
        block_word(b, t as int)
    } else {
        add32(
            add32(small_sigma1(schedule(b, (t - 2) as nat)), schedule(b, (t - 7) as nat)),
            add32(small_sigma0(schedule(b, (t - 15) as nat)), schedule(b, (t - 16) as nat)),
        )
    }
}

/// One round on the working variables `a..h`.
pub open spec fn round(s: Seq<u32>, k: u32, w: u32) -> Seq<u32> {
    let t1 = add32(add32(add32(add32(s[7], big_sigma1(s[4])), ch(s[4], s[5], s[6])), k), w);
    let t2 = add32(big_sigma0(s[0]), maj(s[0], s[1], s[2]));
    seq![add32(t1, t2), s[0], s[1], s[2], add32(s[3], t1), s[4], s[5], s[6]]
}

/// The working variables after the first `t` rounds over block `b`.
pub open spec fn rounds(s0: Seq<u32>, b: Seq<u8>, t: nat) -> Seq<u32>
    decreases t,
{
    if t == 0 {
        s0
    } else {
        round(rounds(s0, b, (t - 1) as nat), round_constants()[t - 1], schedule(b, (t - 1) as nat))
    }
}

/// The hash value after one more block.
pub open spec fn compress(h: Seq<u32>, b: Seq<u8>) -> Seq<u32> {
    let s = rounds(h, b, 64);
    Seq::new(8, |i: int| add32(h[i], s[i]))
}

/// The hash value after the first `n` blocks of `s`.
pub open spec fn hash_blocks(h: Seq<u32>, s: Seq<u8>, n: nat) -> Seq<u32>
    decreases n,
{
    if n == 0 {
        h
    } else {
        compress(hash_blocks(h, s, (n - 1) as nat), s.subrange(64 * (n - 1), 64 * n as int))
    }
}

/// How many zero bytes pad a message of `len` bytes.
pub open spec fn pad_zeros(len: nat) -> nat {
    ((64 - (len + 9) % 64) % 64) as nat
}

/// What follows a message of `len` bytes: 0x80, zeros, and the length in
/// bits as 64 bits big-endian.
pub open spec fn padding(len: nat) -> Seq<u8> {
    seq![0x80u8] + Seq::new(pad_zeros(len), |i: int| 0u8) + be_bytes(len * 8, 8)
}

pub open spec fn padded(m: Seq<u8>) -> Seq<u8> {
    m + padding(m.len())
}

/// The words of a hash value, each big-endian.
pub open spec fn words_be(h: Seq<u32>) -> Seq<u8>
    decreases h.len(),
{
    if h.len() == 0 {
        seq![]
    } else {
        words_be(h.drop_last()) + be_bytes(h.last() as nat, 4)
    }
}

/// The SHA-256 digest of `m`.
#[verifier::opaque]
pub open spec fn sha256(m: Seq<u8>) -> Seq<u8> {
    words_be(hash_blocks(initial_hash(), padded(m), padded(m).len() / 64))
}

/// The longest message whose length in bits fits in 64 bits.
pub const MAX_MESSAGE_LEN: u64 = 0x1fff_ffff_ffff_ffff;

pub proof fn lemma_padded_len(len: nat)
    ensures
        (len + padding(len).len()) % 64 == 0,
        padding(len).len() == 9 + pad_zeros(len),
{
    lemma_be_bytes_len(len * 8, 8);
}

/// The first `n` blocks are all that the hash value after them reads.
pub proof fn lemma_hash_blocks_prefix(h: Seq<u32>, s1: Seq<u8>, s2: Seq<u8>, n: nat)
    requires
        s1.len() >= 64 * n as int,
        s2.len() >= 64 * n as int,
        s1.subrange(0, 64 * n as int) == s2.subrange(0, 64 * n as int),
    ensures
        hash_blocks(h, s1, n) == hash_blocks(h, s2, n),
    decreases n,
{
    if n > 0 {
        let m = (n - 1) as nat;
        assert(s1.subrange(0, 64 * m as int) =~= s1.subrange(0, 64 * n as int).subrange(0, 64 * m as int));
        assert(s2.subrange(0, 64 * m as int) =~= s2.subrange(0, 64 * n as int).subrange(0, 64 * m as int));
        lemma_hash_blocks_prefix(h, s1, s2, m);
        assert(s1.subrange(64 * m as int, 64 * n as int) =~= s1.subrange(0, 64 * n as int).subrange(64 * m as int, 64 * n as int));
        assert(s2.subrange(64 * m as int, 64 * n as int) =~= s2.subrange(0, 64 * n as int).subrange(64 * m as int, 64 * n as int));
    }
}

fn rotr_exec(x: u32, n: u32) -> (r: u32)
    requires
        0 < n < 32,
    ensures
        r == rotr(x, n),
{
    (x >> n) | (x << (32 - n))
}

fn round_constants_vec() -> (r: Vec<u32>)
    ensures
        r@ == round_constants(),
{
    let r = vec![
        0x428a2f98u32, 0x71374491, 0xb5c0fbcf, 0xe9b5dba5, 0x3956c25b, 0x59f111f1, 0x923f82a4, 0xab1c5ed5,
        0xd807aa98, 0x12835b01, 0x243185be, 0x550c7dc3, 0x72be5d74, 0x80deb1fe, 0x9bdc06a7, 0xc19bf174,
        0xe49b69c1, 0xefbe4786, 0x0fc19dc6, 0x240ca1cc, 0x2de92c6f, 0x4a7484aa, 0x5cb0a9dc, 0x76f988da,
        0x983e5152, 0xa831c66d, 0xb00327c8, 0xbf597fc7, 0xc6e00bf3, 0xd5a79147, 0x06ca6351, 0x14292967,
        0x27b70a85, 0x2e1b2138, 0x4d2c6dfc, 0x53380d13, 0x650a7354, 0x766a0abb, 0x81c2c92e, 0x92722c85,
        0xa2bfe8a1, 0xa81a664b, 0xc24b8b70, 0xc76c51a3, 0xd192e819, 0xd6990624, 0xf40e3585, 0x106aa070,
        0x19a4c116, 0x1e376c08, 0x2748774c, 0x34b0bcb5, 0x391c0cb3, 0x4ed8aa4a, 0x5b9cca4f, 0x682e6ff3,
        0x748f82ee, 0x78a5636f, 0x84c87814, 0x8cc70208, 0x90befffa, 0xa4506ceb, 0xbef9a3f7, 0xc67178f2,
    ];
    assert(r@ =~= round_constants());
    r
}

/// Folds one 64-byte block into the hash value.
fn compress_block(h: &mut Vec<u32>, block: &[u8])
    requires
        old(h)@.len() == 8,
        block@.len() == 64,
    ensures
        final(h)@ == compress(old(h)@, block@),
{
    let k = round_constants_vec();
    let mut w: Vec<u32> = Vec::new();
    let mut t: usize = 0;
    while t < 64
        invariant
            t <= 64,
            block@.len() == 64,
            w@.len() == t,
            forall|j: int| 0 <= j < t ==> w@[j] == schedule(block@, j as nat),
        decreases 64 - t,
    {
        let x = if t < 16 {
            block[4 * t] as u32 * 0x1000000 + block[4 * t + 1] as u32 * 0x10000 + block[4 * t + 2]
                as u32 * 0x100 + block[4 * t + 3] as u32
        } else {
            let s1 = rotr_exec(w[t - 2], 17) ^ rotr_exec(w[t - 2], 19) ^ (w[t - 2] >> 10);
            let s0 = rotr_exec(w[t - 15], 7) ^ rotr_exec(w[t - 15], 18) ^ (w[t - 15] >> 3);
            s1.wrapping_add(w[t - 7]).wrapping_add(s0.wrapping_add(w[t - 16]))
        };
        w.push(x);
        t = t + 1;
    }
    let ghost h0 = h@;
    let mut a = h[0];
    let mut b = h[1];
    let mut c = h[2];
    let mut d = h[3];
    let mut e = h[4];
    let mut f = h[5];
    let mut g = h[6];
    let mut hh = h[7];
    assert(seq![a, b, c, d, e, f, g, hh] =~= rounds(h0, block@, 0));
    let mut t: usize = 0;
    while t < 64
        invariant
            t <= 64,
            h@ == h0,
            h0.len() == 8,
            k@ == round_constants(),
            w@.len() == 64,
            forall|j: int| 0 <= j < 64 ==> w@[j] == schedule(block@, j as nat),
            seq![a, b, c, d, e, f, g, hh] == rounds(h0, block@, t as nat),
        decreases 64 - t,
    {
        let ghost s = seq![a, b, c, d, e, f, g, hh];
        let big1 = rotr_exec(e, 6) ^ rotr_exec(e, 11) ^ rotr_exec(e, 25);
        let chv = (e & f) ^ (!e & g);
        let t1 = hh.wrapping_add(big1).wrapping_add(chv).wrapping_add(k[t]).wrapping_add(w[t]);
        let big0 = rotr_exec(a, 2) ^ rotr_exec(a, 13) ^ rotr_exec(a, 22);
        let majv = (a & b) ^ (a & c) ^ (b & c);
        let t2 = big0.wrapping_add(majv);
        hh = g;
        g = f;
        f = e;
        e = d.wrapping_add(t1);
        d = c;
        c = b;
        b = a;
        a = t1.wrapping_add(t2);
        t = t + 1;
        assert(seq![a, b, c, d, e, f, g, hh] =~= round(s, round_constants()[t - 1], schedule(block@, (t - 1) as nat)));
    }
    let ghost s = rounds(h0, block@, 64);
    let vals = [a, b, c, d, e, f, g, hh];
    let mut i: usize = 0;
    while i < 8
        invariant
            i <= 8,
            h@.len() == 8,
            h0.len() == 8,
            s == rounds(h0, block@, 64),
            s == seq![a, b, c, d, e, f, g, hh],
            vals@ == s,
            forall|j: int| 0 <= j < i ==> h@[j] == add32(h0[j], s[j]),
            forall|j: int| i <= j < 8 ==> h@[j] == h0[j],
        decreases 8 - i,
    {
        let v = h[i].wrapping_add(vals[i]);
        h.set(i, v);
        i = i + 1;
    }
    assert(h@ =~= compress(h0, block@));
}

/// A SHA-256 computation over input that arrives in pieces.
pub struct Sha256 {
    h: Vec<u32>,
    buf: Vec<u8>,
    len: u64,
    absorbed: Ghost<Seq<u8>>,
    message: Ghost<Seq<u8>>,
}

impl View for Sha256 {
    type V = Seq<u8>;

    /// The message so far.
    closed spec fn view(&self) -> Seq<u8> {
        self.message@
    }
}

impl Sha256 {
    /// The hash value covers the whole blocks absorbed; the rest waits in `buf`.
    closed spec fn absorbing(&self) -> bool {
        let n = self.absorbed@.len() / 64;
        &&& self.h@.len() == 8
        &&& self.h@ == hash_blocks(initial_hash(), self.absorbed@, n)
        &&& self.buf@ == self.absorbed@.subrange(64 * n as int, self.absorbed@.len() as int)
    }

    pub closed spec fn wf(&self) -> bool {
        &&& self.absorbing()
        &&& self.absorbed@ == self.message@
        &&& self.len == self.message@.len()
        &&& self.len <= MAX_MESSAGE_LEN
    }

    pub fn new() -> (r: Sha256)
        ensures
            r.wf(),
            r@ == Seq::<u8>::empty(),
    {
        let h = vec![
            0x6a09e667u32, 0xbb67ae85, 0x3c6ef372, 0xa54ff53a, 0x510e527f, 0x9b05688c, 0x1f83d9ab,
            0x5be0cd19,
        ];
        assert(h@ =~= initial_hash());
        let r = Sha256 {
            h,
            buf: Vec::new(),
            len: 0,
            absorbed: Ghost(Seq::empty()),
            message: Ghost(Seq::empty()),
        };
        assert(r.buf@ =~= r.absorbed@.subrange(0, 0));
        r
    }

    fn absorb(&mut self, input: &[u8])
        requires
            old(self).absorbing(),
        ensures
            final(self).absorbing(),
            final(self).absorbed@ == old(self).absorbed@ + input@,
            final(self).len == old(self).len,
            final(self).message == old(self).message,
    {
        let mut i: usize = 0;
        while i < input.len()
            invariant
                i <= input@.len(),
                self.absorbing(),
                self.absorbed@ == old(self).absorbed@ + input@.subrange(0, i as int),
                self.len == old(self).len,
                self.message == old(self).message,
            decreases input.len() - i,
        {
            let ghost before = self.absorbed@;
            let ghost n = before.len() / 64;
            let b = input[i];
            self.buf.push(b);
            self.absorbed = Ghost(before.push(b));
            let ghost after = self.absorbed@;
            assert(after.subrange(0, 64 * n as int) =~= before.subrange(0, 64 * n as int));
            proof {
                lemma_hash_blocks_prefix(initial_hash(), before, after, n as nat);
            }
            if self.buf.len() == 64 {
                assert(after.len() == 64 * (n + 1));
                assert(after.len() / 64 == n + 1);
                assert(self.buf@ =~= after.subrange(64 * n as int, 64 * (n + 1) as int));
                compress_block(&mut self.h, self.buf.as_slice());
                assert(self.h@ == hash_blocks(initial_hash(), after, (n + 1) as nat));
                self.buf.clear();
                assert(self.buf@ =~= after.subrange(64 * (n + 1) as int, after.len() as int));
            } else {
                assert(after.len() / 64 == n);
                assert(self.buf@ =~= after.subrange(64 * n as int, after.len() as int));
            }
            i = i + 1;
            assert(self.absorbed@ =~= old(self).absorbed@ + input@.subrange(0, i as int));
        }
        assert(input@.subrange(0, input@.len() as int) =~= input@);
    }

    /// Appends to the message.
    pub fn update(&mut self, input: &[u8])
        requires
            old(self).wf(),
            old(self)@.len() + input@.len() <= MAX_MESSAGE_LEN,
        ensures
            final(self).wf(),
            final(self)@ == old(self)@ + input@,
    {
        self.absorb(input);
        self.len = self.len + input.len() as u64;
        self.message = Ghost(self.message@ + input@);
    }

    /// The digest of the message.
    pub fn finalize(self) -> (r: Vec<u8>)
        requires
            self.wf(),
        ensures
            r@ == sha256(self@),
    {
        let mut st = self;
        let ghost m = st.message@;
        let mut pad: Vec<u8> = vec![0x80];
        let zeros = ((64 - (st.len % 64 + 9) % 64) % 64) as usize;
        let mut i: usize = 0;
        while i < zeros
            invariant
                i <= zeros,
                pad@ == seq![0x80u8] + Seq::new(i as nat, |j: int| 0u8),
            decreases zeros - i,
        {
            pad.push(0);
            i = i + 1;
            assert(pad@ =~= seq![0x80u8] + Seq::new(i as nat, |j: int| 0u8));
        }
        let mut bits = be_bytes_of(st.len * 8, 8);
        pad.append(&mut bits);
        assert(zeros == pad_zeros(m.len()));
        assert(pad@ =~= padding(m.len()));
        st.absorb(pad.as_slice());
        proof {
            lemma_padded_len(m.len());
            assert(st.absorbed@ == padded(m));
        }
        let mut out: Vec<u8> = Vec::new();
        let mut j: usize = 0;
        while j < 8
            invariant
                j <= 8,
                st.h@.len() == 8,
                out@ == words_be(st.h@.subrange(0, j as int)),
            decreases 8 - j,
        {
            let mut word = be_bytes_of(st.h[j] as u64, 4);
            out.append(&mut word);
            j = j + 1;
            assert(st.h@.subrange(0, j as int).drop_last() =~= st.h@.subrange(0, j - 1));
        }
        assert(st.h@.subrange(0, 8) =~= st.h@);
        let ghost p = padded(m);
        assert(st.h@ == hash_blocks(initial_hash(), p, p.len() / 64));
        assert(out@ == sha256(m)) by {
            reveal(sha256);
        }
        out
    }
}

/// The SHA-256 digest of `m`, in one call.
pub fn sha256_digest(m: &[u8]) -> (r: Vec<u8>)
    requires
        m@.len() <= MAX_MESSAGE_LEN,
    ensures
        r@ == sha256(m@),
{
    let mut s = Sha256::new();
    s.update(m);
    assert(Seq::<u8>::empty() + m@ =~= m@);
    s.finalize()
}

/// A digest is 32 bytes.
pub proof fn lemma_sha256_len(m: Seq<u8>)
    ensures
        sha256(m).len() == 32,
{
    reveal(sha256);
    let p = padded(m);
    lemma_hash_blocks_len(initial_hash(), p, p.len() / 64);
    lemma_words_be_len(hash_blocks(initial_hash(), p, p.len() / 64));
}

proof fn lemma_hash_blocks_len(h: Seq<u32>, s: Seq<u8>, n: nat)
    requires
        h.len() == 8,
    ensures
        hash_blocks(h, s, n).len() == 8,
    decreases n,
{
    if n > 0 {
        lemma_hash_blocks_len(h, s, (n - 1) as nat);
    }
}

proof fn lemma_words_be_len(h: Seq<u32>)
    ensures
        words_be(h).len() == 4 * h.len(),
    decreases h.len(),
{
    if h.len() > 0 {
        lemma_words_be_len(h.drop_last());
        lemma_be_bytes_len(h.last() as nat, 4);
    }
}

} // verus!
