//! The Poly1305 one-time authenticator (RFC 7539, section 2.5).
use vstd::prelude::*;
use vstd::arithmetic::div_mod::{lemma_add_mod_noop, lemma_mod_bound, lemma_small_mod};

verus! {

/// 2^128.
pub open spec fn two128() -> int {
    0x1_0000_0000_0000_0000_0000_0000_0000_0000int
}

/// The prime 2^130 - 5.
pub open spec fn prime() -> int {
    4 * two128() - 5
}

/// Little-endian value of a byte string.
pub open spec fn le_value(s: Seq<u8>) -> nat
    decreases s.len(),
{
    if s.len() == 0 {
        0
    } else {
        (s[0] + 256 * le_value(s.drop_first())) as nat
    }
}

pub open spec fn pow256(n: nat) -> nat
    decreases n,
{
    if n == 0 {
        1
    } else {
        256 * pow256((n - 1) as nat)
    }
}

/// The bits of r that RFC 7539 keeps.
pub const R_MASK: u128 = 0x0ffffffc0ffffffc0ffffffc0fffffff;

/// The multiplier r: the first half of the key, clamped.
pub open spec fn clamped_r(key: Seq<u8>) -> u128 {
    (le_value(key.subrange(0, 16)) as u128) & R_MASK
}

/// Chunk `j` of the message: 16 bytes, or what is left.
pub open spec fn chunk(msg: Seq<u8>, j: nat) -> Seq<u8> {
    let end = if 16 * j + 16 <= msg.len() {
        16 * j as int + 16
    } else {
        msg.len() as int
    };
    msg.subrange(16 * j as int, end)
}

/// The accumulator after the first `n` chunks.
pub open spec fn accumulate(r: int, msg: Seq<u8>, n: nat) -> int
    decreases n,
{
    if n == 0 {
        0
    } else {
        let c = chunk(msg, (n - 1) as nat);
        ((accumulate(r, msg, (n - 1) as nat) + le_value(c) + pow256(c.len())) * r) % prime()
    }
}

/// The 16 low bytes of `v`, least significant first.
pub open spec fn le_bytes16(v: int) -> Seq<u8> {
    Seq::new(16, |i: int| ((v / pow256(i as nat) as int) % 256) as u8)
}

/// The tag of `msg` under the one-time key `key`.
pub open spec fn poly1305(key: Seq<u8>, msg: Seq<u8>) -> Seq<u8> {
    let n = ((msg.len() + 15) / 16) as nat;
    let acc = accumulate(clamped_r(key) as int, msg, n);
    le_bytes16((acc + le_value(key.subrange(16, 32))) % two128())
}

/// A value below 2^131, as its low 128 bits and the bits above.
pub open spec fn value(lo: u128, hi: u64) -> int {
    hi * two128() + lo
}

/// `(a + b) mod p` for `a`, `b` below p.
fn add_mod(alo: u128, ahi: u64, blo: u128, bhi: u64) -> (r: (u128, u64))
    requires
        0 <= value(alo, ahi) < prime(),
        0 <= value(blo, bhi) < prime(),
    ensures
        value(r.0, r.1) == (value(alo, ahi) + value(blo, bhi)) % prime(),
        value(r.0, r.1) < prime(),
        r.1 <= 3,
{
    assert(ahi <= 3 && bhi <= 3);
    let lo = alo.wrapping_add(blo);
    let carry: u64 = if lo < alo {
        1
    } else {
        0
    };
    let hi = ahi + bhi + carry;
    assert(value(lo, hi) == value(alo, ahi) + value(blo, bhi));
    let ghost sum = value(alo, ahi) + value(blo, bhi);
    if hi > 3 || (hi == 3 && lo >= 0xffff_ffff_ffff_ffff_ffff_ffff_ffff_fffb) {
        let lo2 = lo.wrapping_sub(0xffff_ffff_ffff_ffff_ffff_ffff_ffff_fffb);
        let borrow: u64 = if lo < 0xffff_ffff_ffff_ffff_ffff_ffff_ffff_fffb {
            1
        } else {
            0
        };
        let hi2 = hi - 3 - borrow;
        assert(value(lo2, hi2) == sum - prime());
        proof {
            lemma_small_mod((sum - prime()) as nat, prime() as nat);
            vstd::arithmetic::div_mod::lemma_mod_sub_multiples_vanish(sum, prime());
        }
        (lo2, hi2)
    } else {
        proof {
            lemma_small_mod(sum as nat, prime() as nat);
        }
        (lo, hi)
    }
}

proof fn lemma_shift_step(r: u128, i: u128)
    requires
        i < 128,
    ensures
        (r >> i) == 2 * (r >> (i + 1) as u128) + ((r >> i) & 1),
{
    assert((r >> i) == 2 * (r >> (i + 1) as u128) + ((r >> i) & 1)) by (bit_vector)
        requires
            i < 128,
    ;
}

proof fn lemma_double_add_step(a: int, q: int, b: int, p: int, x: int)
    requires
        p > 0,
        0 <= a < p,
        x == (a * q) % p,
        b == 0 || b == 1,
    ensures
        (if b == 1 {
            ((x + x) % p + a) % p
        } else {
            (x + x) % p
        }) == (a * (2 * q + b)) % p,
{
    lemma_add_mod_noop(a * q, a * q, p);
    assert(a * (2 * q + b) == a * q + a * q + a * b) by (nonlinear_arith);
    if b == 1 {
        lemma_mod_bound(x + x, p);
        lemma_small_mod(a as nat, p as nat);
        lemma_add_mod_noop(a * q + a * q, a, p);
        assert(a * b == a);
    } else {
        assert(a * b == 0);
    }
}

/// `(a * r) mod p`, by doubling and adding over the bits of `r`.
fn mul_mod(alo: u128, ahi: u64, r: u128) -> (res: (u128, u64))
    requires
        0 <= value(alo, ahi) < prime(),
    ensures
        value(res.0, res.1) == (value(alo, ahi) * r) % prime(),
        value(res.0, res.1) < prime(),
{
    let ghost a = value(alo, ahi);
    let mut lo: u128 = 0;
    let mut hi: u64 = 0;
    let mut i: u128 = 128;
    proof {
        assert((r >> 128u128) == 0) by (bit_vector);
        assert(a * (r >> 128u128) == 0);
        lemma_small_mod(0, prime() as nat);
    }
    while i > 0
        invariant
            i <= 128,
            0 <= a < prime(),
            a == value(alo, ahi),
            0 <= value(lo, hi) < prime(),
            value(lo, hi) == (a * (r >> i)) % prime(),
        decreases i,
    {
        let ghost x = value(lo, hi);
        let ghost q = (r >> i) as int;
        i = i - 1;
        proof {
            lemma_shift_step(r, i);
        }
        let bit = (r >> i) & 1;
        assert(bit == 0 || bit == 1) by (bit_vector)
            requires
                bit == (r >> i) & 1,
        ;
        let d = add_mod(lo, hi, lo, hi);
        lo = d.0;
        hi = d.1;
        if bit == 1 {
            let s = add_mod(lo, hi, alo, ahi);
            lo = s.0;
            hi = s.1;
        }
        proof {
            lemma_double_add_step(a, q, bit as int, prime(), x);
        }
    }
    proof {
        assert((r >> 0u128) == r) by (bit_vector);
    }
    (lo, hi)
}

pub proof fn lemma_le_value_bound(s: Seq<u8>)
    ensures
        le_value(s) < pow256(s.len()),
    decreases s.len(),
{
    if s.len() > 0 {
        lemma_le_value_bound(s.drop_first());
    }
}

/// The little-endian value of up to 16 bytes.
fn le_u128(s: &[u8], from: usize, to: usize) -> (r: u128)
    requires
        from <= to <= s@.len(),
        to - from <= 16,
    ensures
        r == le_value(s@.subrange(from as int, to as int)),
{
    let mut v: u128 = 0;
    let mut k = to;
    while k > from
        invariant
            from <= k <= to <= s@.len(),
            to - from <= 16,
            v == le_value(s@.subrange(k as int, to as int)),
        decreases k,
    {
        k = k - 1;
        let ghost sub = s@.subrange(k as int, to as int);
        assert(sub.drop_first() =~= s@.subrange(k + 1, to as int));
        proof {
            lemma_le_value_bound(s@.subrange(k + 1, to as int));
            lemma_pow256_le((to - k - 1) as nat, 15);
            lemma_pow256_16();
        }
        v = s[k] as u128 + 256 * v;
    }
    v
}

proof fn lemma_pow256_le(a: nat, b: nat)
    requires
        a <= b,
    ensures
        pow256(a) <= pow256(b),
    decreases b,
{
    if a < b {
        lemma_pow256_le(a, (b - 1) as nat);
    }
}

proof fn lemma_pow256_16()
    ensures
        pow256(0) == 1,
        pow256(15) == 0x1_00_0000_0000_0000_0000_0000_0000_0000int,
        pow256(16) == two128(),
{
    reveal_with_fuel(pow256, 17);
}

proof fn lemma_pow256_pos(n: nat)
    ensures
        pow256(n) > 0,
    decreases n,
{
    if n > 0 {
        lemma_pow256_pos((n - 1) as nat);
    }
}

/// The tag of `msg` under the one-time key `key`.
pub fn poly1305_tag(key: &[u8], msg: &[u8]) -> (tag: Vec<u8>)
    requires
        key@.len() == 32,
    ensures
        tag@ == poly1305(key@, msg@),
{
    let r = le_u128(key, 0, 16) & R_MASK;
    let s = le_u128(key, 16, 32);
    assert(key@.subrange(0, 16) == key@.subrange(0, 16));
    let n = msg.len() / 16 + if msg.len() % 16 == 0 {
        0
    } else {
        1
    };
    let len = msg.len();
    let mut acc_lo: u128 = 0;
    let mut acc_hi: u64 = 0;
    let mut j: usize = 0;
    proof {
        lemma_pow256_16();
    }
    while j < n
        invariant
            j <= n,
            len == msg@.len(),
            n == (msg@.len() + 15) / 16,
            n == msg@.len() / 16 + (if msg@.len() % 16 == 0 {
                0int
            } else {
                1int
            }),
            r == clamped_r(key@),
            pow256(16) == two128(),
            0 <= value(acc_lo, acc_hi) < prime(),
            value(acc_lo, acc_hi) == accumulate(r as int, msg@, j as nat),
        decreases n - j,
    {
        assert(16 * j < len);
        let start = 16 * j;
        let end = if msg.len() - start >= 16 {
            start + 16
        } else {
            msg.len()
        };
        let ghost c = chunk(msg@, j as nat);
        let v = le_u128(msg, start, end);
        proof {
            lemma_le_value_bound(c);
            lemma_pow256_le(c.len(), 16);
        }
        // the chunk with a one byte after it
        let (nlo, nhi): (u128, u64) = if end - start == 16 {
            (v, 1)
        } else {
            let mut p: u128 = 1;
            let mut k: usize = 0;
            while k < end - start
                invariant
                    k <= end - start < 16,
                    p == pow256(k as nat),
                decreases end - start - k,
            {
                proof {
                    lemma_pow256_le(k as nat + 1, 15);
                    lemma_pow256_16();
                }
                p = p * 256;
                k = k + 1;
            }
            proof {
                lemma_pow256_le(c.len(), 15);
            }
            (v + p, 0)
        };
        assert(value(nlo, nhi) == le_value(c) + pow256(c.len()));
        let sum = add_mod(acc_lo, acc_hi, nlo, nhi);
        let prod = mul_mod(sum.0, sum.1, r);
        proof {
            let acc = accumulate(r as int, msg@, j as nat);
            let nv = le_value(c) + pow256(c.len());
            lemma_small_mod(nv as nat, prime() as nat);
            vstd::arithmetic::div_mod::lemma_mul_mod_noop_left(acc + nv, r as int, prime());
        }
        acc_lo = prod.0;
        acc_hi = prod.1;
        j = j + 1;
    }
    let total = acc_lo.wrapping_add(s);
    let ghost t = (accumulate(r as int, msg@, n as nat) + le_value(key@.subrange(16, 32))) % two128();
    assert(total == t);
    assert(0 <= t);
    let mut tag: Vec<u8> = Vec::new();
    let mut x = total;
    let mut i: usize = 0;
    proof {
        lemma_pow256_16();
    }
    while i < 16
        invariant
            i <= 16,
            0 <= t,
            x == t / pow256(i as nat) as int,
            tag@ == le_bytes16(t).subrange(0, i as int),
        decreases 16 - i,
    {
        tag.push((x % 256) as u8);
        proof {
            lemma_pow256_pos(i as nat);
            vstd::arithmetic::div_mod::lemma_div_denominator(t, pow256(i as nat) as int, 256);
        }
        x = x / 256;
        i = i + 1;
        assert(tag@ =~= le_bytes16(t).subrange(0, i as int));
    }
    assert(tag@ =~= le_bytes16(t));
    tag
}

} // verus!
