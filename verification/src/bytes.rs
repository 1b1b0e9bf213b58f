//! Little-endian numbers and byte runs inside a buffer.

use vstd::prelude::*;

verus! {

/// The number whose four little-endian bytes start at `at`.
pub open spec fn le32_at(s: Seq<u8>, at: int) -> int {
    s[at] + s[at + 1] * 0x100 + s[at + 2] * 0x1_0000 + s[at + 3] * 0x100_0000
}

/// The number whose eight little-endian bytes start at `at`.
pub open spec fn le64_at(s: Seq<u8>, at: int) -> int {
    le32_at(s, at) + le32_at(s, at + 4) * 0x1_0000_0000
}

/// The four little-endian bytes of `x`.
pub open spec fn le32_bytes(x: int) -> Seq<u8> {
    seq![
        (x % 0x100) as u8,
        (x / 0x100 % 0x100) as u8,
        (x / 0x1_0000 % 0x100) as u8,
        (x / 0x100_0000 % 0x100) as u8,
    ]
}

/// The eight little-endian bytes of `x`.
pub open spec fn le64_bytes(x: int) -> Seq<u8> {
    le32_bytes(x % 0x1_0000_0000) + le32_bytes(x / 0x1_0000_0000)
}

/// `n` zero bytes.
pub open spec fn zeros(n: nat) -> Seq<u8> {
    Seq::new(n, |i: int| 0u8)
}

/// `s` with the bytes from `at` on replaced by `b`.
pub open spec fn overwrite(s: Seq<u8>, at: int, b: Seq<u8>) -> Seq<u8> {
    Seq::new(
        s.len(),
        |i: int|
            if at <= i < at + b.len() {
                b[i - at]
            } else {
                s[i]
            },
    )
}

/// Two runs written one behind the other are one run.
pub proof fn lemma_overwrite_twice(s: Seq<u8>, at: int, a: Seq<u8>, b: Seq<u8>)
    ensures
        overwrite(overwrite(s, at, a), at + a.len(), b) == overwrite(s, at, a + b),
{
    assert(overwrite(overwrite(s, at, a), at + a.len(), b) =~= overwrite(s, at, a + b));
}

/// A number that stands in a part of a buffer.
pub proof fn lemma_le32_in_part(s: Seq<u8>, at: int, end: int, i: int)
    requires
        0 <= at,
        at <= end <= s.len(),
        0 <= i,
        at + i + 4 <= end,
    ensures
        le32_at(s.subrange(at, end), i) == le32_at(s, at + i),
{
}

/// A written `u32` is read back.
pub proof fn lemma_le32_round_trip(s: Seq<u8>, at: int, x: u32)
    requires
        0 <= at,
        at + 4 <= s.len(),
        s.subrange(at, at + 4) == le32_bytes(x as int),
    ensures
        le32_at(s, at) == x,
{
    let b = le32_bytes(x as int);
    let t = s.subrange(at, at + 4);
    assert(s[at] == t[0] && s[at + 1] == t[1] && s[at + 2] == t[2] && s[at + 3] == t[3]);
}

/// A written `u64` is read back.
pub proof fn lemma_le64_round_trip(s: Seq<u8>, at: int, x: u64)
    requires
        0 <= at,
        at + 8 <= s.len(),
        s.subrange(at, at + 8) == le64_bytes(x as int),
    ensures
        le64_at(s, at) == x,
{
    let lo = (x as int % 0x1_0000_0000) as u32;
    let hi = (x as int / 0x1_0000_0000) as u32;
    let t = s.subrange(at, at + 8);
    assert(s.subrange(at, at + 4) =~= t.subrange(0, 4));
    assert(s.subrange(at + 4, at + 8) =~= t.subrange(4, 8));
    assert(t.subrange(0, 4) =~= le32_bytes(lo as int));
    assert(t.subrange(4, 8) =~= le32_bytes(hi as int));
    lemma_le32_round_trip(s, at, lo);
    lemma_le32_round_trip(s, at + 4, hi);
}

/// Makes a buffer of `n` zero bytes.
pub fn zeroed(n: usize) -> (r: Vec<u8>)
    requires
        n <= isize::MAX,
    ensures
        r@ == zeros(n as nat),
{
    let r: Vec<u8> = vec![0u8; n];
    assert(r@ =~= zeros(n as nat));
    r
}

/// Reads the `u32` at `at`.
pub fn get_u32(s: &[u8], at: usize) -> (x: u32)
    requires
        at + 4 <= s.len(),
    ensures
        x == le32_at(s@, at as int),
{
    s[at] as u32 + s[at + 1] as u32 * 0x100 + s[at + 2] as u32 * 0x1_0000 + s[at + 3] as u32
        * 0x100_0000
}

/// Reads the `u64` at `at`.
pub fn get_u64(s: &[u8], at: usize) -> (x: u64)
    requires
        at + 8 <= s.len(),
    ensures
        x == le64_at(s@, at as int),
{
    get_u32(s, at) as u64 + get_u32(s, at + 4) as u64 * 0x1_0000_0000
}

/// Writes `x` as a `u32` at `at`.
pub fn put_u32(s: &mut Vec<u8>, at: usize, x: u32)
    requires
        at + 4 <= old(s).len(),
    ensures
        final(s)@ == overwrite(old(s)@, at as int, le32_bytes(x as int)),
{
    s.set(at, (x % 0x100) as u8);
    s.set(at + 1, (x / 0x100 % 0x100) as u8);
    s.set(at + 2, (x / 0x1_0000 % 0x100) as u8);
    s.set(at + 3, (x / 0x100_0000 % 0x100) as u8);
    assert(s@ =~= overwrite(old(s)@, at as int, le32_bytes(x as int)));
}

/// Writes `x` as a `u64` at `at`.
pub fn put_u64(s: &mut Vec<u8>, at: usize, x: u64)
    requires
        at + 8 <= old(s).len(),
    ensures
        final(s)@ == overwrite(old(s)@, at as int, le64_bytes(x as int)),
{
    put_u32(s, at, (x % 0x1_0000_0000) as u32);
    put_u32(s, at + 4, (x / 0x1_0000_0000) as u32);
    proof {
        lemma_overwrite_twice(
            old(s)@,
            at as int,
            le32_bytes(x as int % 0x1_0000_0000),
            le32_bytes(x as int / 0x1_0000_0000),
        );
    }
}

/// Copies `data` into `s` from `at` on.
pub fn put_bytes(s: &mut Vec<u8>, at: usize, data: &[u8])
    requires
        at + data@.len() <= old(s).len(),
    ensures
        final(s)@ == overwrite(old(s)@, at as int, data@),
{
    let mut i: usize = 0;
    while i < data.len()
        invariant
            i <= data@.len(),
            at + data@.len() <= old(s).len(),
            s@ == overwrite(old(s)@, at as int, data@.subrange(0, i as int)),
        decreases data@.len() - i,
    {
        s.set(at + i, data[i]);
        assert(s@ =~= overwrite(old(s)@, at as int, data@.subrange(0, i + 1)));
        i += 1;
    }
    assert(data@.subrange(0, i as int) =~= data@);
    assert(s@ =~= overwrite(old(s)@, at as int, data@)) by {
        assert(overwrite(old(s)@, at as int, data@.subrange(0, 0)) =~= old(s)@);
    }
}

/// Numbers lie in a buffer with their lowest byte first.
pub proof fn law_lowest_byte_first(s: Seq<u8>, at: int)
    ensures
        le32_at(s, at) == s[at] + 0x100 * s[at + 1] + 0x1_0000 * s[at + 2] + 0x100_0000 * s[at + 3],
        le64_at(s, at) == s[at] + 0x100 * s[at + 1] + 0x1_0000 * s[at + 2] + 0x100_0000 * s[at + 3]
            + 0x1_0000_0000 * s[at + 4] + 0x100_0000_0000 * s[at + 5] + 0x1_0000_0000_0000 * s[at
            + 6] + 0x100_0000_0000_0000 * s[at + 7],
{
}

/// The bytes of a number, lowest first, add up to it.
pub proof fn law_bytes_add_up(x: u32, y: u64)
    ensures
        ({
            let b = le32_bytes(x as int);
            &&& b.len() == 4
            &&& b[0] + 0x100 * b[1] + 0x1_0000 * b[2] + 0x100_0000 * b[3] == x
        }),
        ({
            let b = le64_bytes(y as int);
            &&& b.len() == 8
            &&& b[0] + 0x100 * b[1] + 0x1_0000 * b[2] + 0x100_0000 * b[3] + 0x1_0000_0000 * b[4]
                + 0x100_0000_0000 * b[5] + 0x1_0000_0000_0000 * b[6] + 0x100_0000_0000_0000 * b[7]
                == y
        }),
{
    let a = le32_bytes(x as int);
    let b = le64_bytes(y as int);
    assert(a.subrange(0, 4) =~= a);
    lemma_le32_round_trip(a, 0, x);
    assert(b.subrange(0, 8) =~= b);
    lemma_le64_round_trip(b, 0, y);
}

/// Writing bytes changes those that are written, and no others.
pub proof fn law_write_is_exact(s: Seq<u8>, at: int, b: Seq<u8>, i: int)
    requires
        0 <= at,
        at + b.len() <= s.len(),
        0 <= i < s.len(),
    ensures
        overwrite(s, at, b).len() == s.len(),
        overwrite(s, at, b).subrange(at, at + b.len()) == b,
        i < at || at + b.len() <= i ==> overwrite(s, at, b)[i] == s[i],
{
    assert(overwrite(s, at, b).subrange(at, at + b.len()) =~= b);
}

/// A new buffer holds zeros.
pub proof fn law_zeros(n: nat, i: int)
    requires
        0 <= i < n,
    ensures
        zeros(n).len() == n,
        zeros(n)[i] == 0,
{
}

} // verus!
