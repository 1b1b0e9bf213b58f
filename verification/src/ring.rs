//! Positions in a ring whose length is a power of two.
//!
//! A position only ever grows. The byte that it names stands at the position modulo the ring's
//! length.

use vstd::arithmetic::div_mod::{
    lemma_fundamental_div_mod, lemma_fundamental_div_mod_converse, lemma_mod_bound,
};
use vstd::arithmetic::power2::{lemma_pow2_pos, lemma_pow2_strictly_increases, lemma_pow2_unfold, pow2};
use vstd::prelude::*;

verus! {

/// `n` is a power of two.
pub open spec fn is_pow2(n: int) -> bool {
    exists|k: nat| n == pow2(k)
}

/// `p` is the smallest power of two that is at least `n`.
pub open spec fn least_pow2(n: int, p: int) -> bool {
    is_pow2(p) && n <= p && (p == 1 || p < 2 * n)
}

/// The room from `pos` to the end of the ring cycle it stands in.
pub open spec fn cycle_rest(pos: int, len: int) -> int {
    len - pos % len
}

/// Moving on inside a ring cycle moves the offset on by as much.
pub proof fn lemma_offset_step(pos: int, len: int, d: int)
    requires
        0 < len,
        0 <= d,
        pos % len + d < len,
    ensures
        (pos + d) % len == pos % len + d,
{
    lemma_fundamental_div_mod(pos, len);
    lemma_mod_bound(pos, len);
    vstd::arithmetic::mul::lemma_mul_is_commutative(len, pos / len);
    lemma_fundamental_div_mod_converse(pos + d, len, pos / len, pos % len + d);
}

/// The end of a ring cycle is offset zero of the next one.
pub proof fn lemma_offset_wrap(pos: int, len: int)
    requires
        0 < len,
    ensures
        (pos + cycle_rest(pos, len)) % len == 0,
        0 < cycle_rest(pos, len) <= len,
{
    lemma_fundamental_div_mod(pos, len);
    lemma_mod_bound(pos, len);
    let q = pos / len;
    assert(pos + cycle_rest(pos, len) == (q + 1) * len + 0) by (nonlinear_arith)
        requires
            pos == len * q + pos % len,
            cycle_rest(pos, len) == len - pos % len,
    ;
    lemma_fundamental_div_mod_converse(pos + cycle_rest(pos, len), len, q + 1, 0);
}

/// A power of two from 32 on is a multiple of 32.
pub proof fn lemma_pow2_multiple_of_32(n: int)
    requires
        is_pow2(n),
        32 <= n,
    ensures
        n % 32 == 0,
{
    let k = choose|k: nat| n == pow2(k);
    vstd::arithmetic::power2::lemma2_to64();
    if k < 5 {
        lemma_pow2_strictly_increases(k, 5);
    }
    vstd::arithmetic::power2::lemma_pow2_adds((k - 5) as nat, 5);
    let m = pow2((k - 5) as nat) as int;
    assert(n == m * 32);
    assert(n % 32 == 0) by (nonlinear_arith)
        requires
            n == m * 32,
    ;
}

/// The offset of a multiple of 32 in a ring of a multiple of 32 bytes is one too.
pub proof fn lemma_offset_aligned(pos: int, len: int)
    requires
        0 < len,
        len % 32 == 0,
        pos % 32 == 0,
    ensures
        (pos % len) % 32 == 0,
        32 <= cycle_rest(pos, len),
{
    lemma_fundamental_div_mod(pos, len);
    lemma_mod_bound(pos, len);
    let q = pos / len;
    let a = pos / 32;
    let b = len / 32;
    assert(pos % len == 32 * (a - b * q)) by (nonlinear_arith)
        requires
            pos == len * q + pos % len,
            pos == 32 * a,
            len == 32 * b,
    ;
    let c = a - b * q;
    assert(pos % len == 32 * c);
}

/// Masking with one less than a power of two is taking the remainder.
pub proof fn lemma_mask_is_mod(pos: u64, len: u64)
    requires
        is_pow2(len as int),
    ensures
        pos & ((len - 1) as u64) == pos as int % len as int,
{
    let k = choose|k: nat| len == pow2(k);
    vstd::arithmetic::power2::lemma2_to64();
    vstd::arithmetic::power2::lemma2_to64_rest();
    lemma_pow2_pos(k);
    if k >= 64 {
        if k > 64 {
            lemma_pow2_strictly_increases(64, k);
        }
    }
    vstd::bits::lemma_u64_low_bits_mask_is_mod(pos, k);
}

/// What lies inside one cycle of a ring lies inside one cycle of any larger ring.
pub proof fn lemma_cycle_inside_cycle(pos: int, d: int, len: int, size: int)
    requires
        is_pow2(len),
        is_pow2(size),
        len <= size,
        pos % len + d <= len,
    ensures
        pos % size + d <= size,
{
    let j = choose|k: nat| len == pow2(k);
    let k = choose|k: nat| size == pow2(k);
    if k < j {
        lemma_pow2_strictly_increases(k, j);
    }
    vstd::arithmetic::power2::lemma_pow2_adds(j, (k - j) as nat);
    lemma_pow2_pos(j);
    lemma_pow2_pos((k - j) as nat);
    let m = pow2((k - j) as nat) as int;
    assert(size == len * m);
    let big = pos % size;
    lemma_mod_bound(pos, size);
    vstd::arithmetic::div_mod::lemma_mod_mod(pos, len, m);
    assert(big % len == pos % len);
    lemma_fundamental_div_mod(big, len);
    let q = big / len;
    assert(q < m) by (nonlinear_arith)
        requires
            big == len * q + big % len,
            big < len * m,
            0 <= big % len,
            0 < len,
    ;
    assert(big + (len - big % len) <= size) by (nonlinear_arith)
        requires
            big == len * q + big % len,
            q < m,
            size == len * m,
            0 < len,
    ;
}

/// The offset in a ring of `len` bytes that `pos` names.
pub fn ring_offset(pos: u64, len: u64) -> (offset: u64)
    requires
        is_pow2(len as int),
    ensures
        offset == pos as int % len as int,
        offset < len,
{
    proof {
        let k = choose|k: nat| len == pow2(k);
        lemma_pow2_pos(k);
        lemma_mask_is_mod(pos, len);
        lemma_mod_bound(pos as int, len as int);
    }
    pos & (len - 1)
}

/// The smallest power of two that is at least `n`.
pub fn next_power_of_two(n: usize) -> (p: usize)
    requires
        n <= usize::MAX / 2 + 1,
    ensures
        least_pow2(n as int, p as int),
{
    let mut p: usize = 1;
    let ghost mut k: nat = 0;
    proof {
        vstd::arithmetic::power2::lemma2_to64();
    }
    while p < n
        invariant
            p == pow2(k),
            0 < p,
            n <= usize::MAX / 2 + 1,
            p == 1 || p < 2 * n,
        decreases 2 * n - p,
    {
        proof {
            lemma_pow2_unfold(k + 1);
            k = k + 1;
        }
        p = p * 2;
    }
    p
}

/// The rest of a ring cycle takes a position to the next multiple of the ring's length.
pub proof fn law_cycle_rest(pos: int, len: int)
    requires
        0 < len,
        0 <= pos,
    ensures
        (pos + cycle_rest(pos, len)) % len == 0,
        0 < cycle_rest(pos, len) <= len,
{
    lemma_offset_wrap(pos, len);
}

/// Of the powers of two from `n` on, the smallest is meant.
pub proof fn law_least_pow2(n: int, p: int, k: nat)
    requires
        least_pow2(n, p),
        n <= pow2(k),
    ensures
        n <= p <= pow2(k),
        exists|j: nat| p == pow2(j),
{
    lemma_pow2_pos(k);
    let j = choose|j: nat| p == pow2(j);
    if pow2(k) < p {
        if j <= k {
            if j < k {
                lemma_pow2_strictly_increases(j, k);
            }
        } else {
            if k + 1 < j {
                lemma_pow2_strictly_increases((k + 1) as nat, j);
            }
            lemma_pow2_unfold((k + 1) as nat);
        }
    }
}

} // verus!
