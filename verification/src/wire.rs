//! Big-endian integer encoding, as the peer wire and tracker protocols use it.

use vstd::prelude::*;

verus! {

/// The unsigned 16-bit integer whose big-endian bytes are `b0, b1`.
pub open spec fn be_u16(b0: u8, b1: u8) -> u16 {
    (b0 as int * 256 + b1 as int) as u16
}

/// The unsigned 32-bit integer stored big-endian at positions `i .. i + 4` of `s`.
pub open spec fn be_u32_at(s: Seq<u8>, i: int) -> u32 {
    (s[i] as int * 0x1000000 + s[i + 1] as int * 0x10000 + s[i + 2] as int * 0x100
        + s[i + 3] as int) as u32
}

/// The unsigned 64-bit integer stored big-endian at positions `i .. i + 8` of `s`.
pub open spec fn be_u64_at(s: Seq<u8>, i: int) -> u64 {
    (be_u32_at(s, i) as int * 0x1_0000_0000 + be_u32_at(s, i + 4) as int) as u64
}

/// The four big-endian bytes of `n`.
pub open spec fn u32_be_bytes(n: u32) -> Seq<u8> {
    seq![
        (n / 0x1000000) as u8,
        ((n / 0x10000) % 0x100) as u8,
        ((n / 0x100) % 0x100) as u8,
        (n % 0x100) as u8,
    ]
}

/// The eight big-endian bytes of `n`.
pub open spec fn u64_be_bytes(n: u64) -> Seq<u8> {
    u32_be_bytes((n / 0x1_0000_0000) as u32) + u32_be_bytes((n % 0x1_0000_0000) as u32)
}

/// The two big-endian bytes of `n`.
pub open spec fn u16_be_bytes(n: u16) -> Seq<u8> {
    seq![(n / 0x100) as u8, (n % 0x100) as u8]
}

/// Reads the big-endian 32-bit integer at position `i` of `s`.
pub fn read_u32_be(s: &[u8], i: usize) -> (r: u32)
    requires
        i + 4 <= s.len(),
    ensures
        r == be_u32_at(s@, i as int),
{
    let b0 = s[i] as u32;
    let b1 = s[i + 1] as u32;
    let b2 = s[i + 2] as u32;
    let b3 = s[i + 3] as u32;
    b0 * 0x1000000 + b1 * 0x10000 + b2 * 0x100 + b3
}

/// Reads the big-endian 64-bit integer at position `i` of `s`.
pub fn read_u64_be(s: &[u8], i: usize) -> (r: u64)
    requires
        i + 8 <= s.len(),
    ensures
        r == be_u64_at(s@, i as int),
{
    let hi = read_u32_be(s, i) as u64;
    let lo = read_u32_be(s, i + 4) as u64;
    hi * 0x1_0000_0000 + lo
}

/// Appends the big-endian bytes of `n` to `v`.
pub fn push_u32_be(v: &mut Vec<u8>, n: u32)
    ensures
        final(v)@ == old(v)@ + u32_be_bytes(n),
{
    v.push((n / 0x1000000) as u8);
    v.push(((n / 0x10000) % 0x100) as u8);
    v.push(((n / 0x100) % 0x100) as u8);
    v.push((n % 0x100) as u8);
    assert(v@ =~= old(v)@ + u32_be_bytes(n));
}

/// Appends the big-endian bytes of `n` to `v`.
pub fn push_u64_be(v: &mut Vec<u8>, n: u64)
    ensures
        final(v)@ == old(v)@ + u64_be_bytes(n),
{
    push_u32_be(v, (n / 0x1_0000_0000) as u32);
    push_u32_be(v, (n % 0x1_0000_0000) as u32);
    assert(v@ =~= old(v)@ + u64_be_bytes(n));
}

/// Appends the big-endian bytes of `n` to `v`.
pub fn push_u16_be(v: &mut Vec<u8>, n: u16)
    ensures
        final(v)@ == old(v)@ + u16_be_bytes(n),
{
    v.push((n / 0x100) as u8);
    v.push((n % 0x100) as u8);
    assert(v@ =~= old(v)@ + u16_be_bytes(n));
}

/// Appends the bytes of `s` to `v`.
pub fn push_all(v: &mut Vec<u8>, s: &[u8])
    ensures
        final(v)@ == old(v)@ + s@,
{
    let mut i: usize = 0;
    while i < s.len()
        invariant
            i <= s@.len(),
            v@ == old(v)@ + s@.take(i as int),
        decreases s@.len() - i,
    {
        v.push(s[i]);
        i = i + 1;
        assert(v@ =~= old(v)@ + s@.take(i as int));
    }
    assert(s@.take(s@.len() as int) =~= s@);
}

/// A copy of the bytes of `s` at positions `from .. to`.
pub fn copy_range(s: &[u8], from: usize, to: usize) -> (r: Vec<u8>)
    requires
        from <= to <= s@.len(),
    ensures
        r@ == s@.subrange(from as int, to as int),
{
    let mut r: Vec<u8> = Vec::new();
    let mut i = from;
    while i < to
        invariant
            from <= i <= to <= s@.len(),
            r@ == s@.subrange(from as int, i as int),
        decreases to - i,
    {
        r.push(s[i]);
        i = i + 1;
        assert(r@ =~= s@.subrange(from as int, i as int));
    }
    r
}

/// Whether the bytes of `s` at positions `from .. from + t.len()` are those of `t`.
pub fn range_equals(s: &[u8], from: usize, t: &[u8]) -> (r: bool)
    requires
        from + t@.len() <= s.len(),
    ensures
        r == (s@.subrange(from as int, from + t@.len()) == t@),
{
    let mut i: usize = 0;
    while i < t.len()
        invariant
            i <= t@.len(),
            from + t@.len() <= s.len(),
            forall|j: int| 0 <= j < i ==> s@[from + j] == t@[j],
        decreases t@.len() - i,
    {
        if s[from + i] != t[i] {
            assert(s@.subrange(from as int, from + t@.len())[i as int] != t@[i as int]);
            return false;
        }
        i = i + 1;
    }
    assert(s@.subrange(from as int, from + t@.len()) =~= t@);
    true
}

/// Reading back the bytes of a 32-bit integer gives the integer.
pub proof fn lemma_u32_roundtrip(n: u32)
    ensures
        be_u32_at(u32_be_bytes(n), 0) == n,
{
    let a = n / 0x1000000;
    let b = (n / 0x10000) % 0x100;
    let c = (n / 0x100) % 0x100;
    let d = n % 0x100;
    assert(a * 0x1000000 + b * 0x10000 + c * 0x100 + d == n) by (nonlinear_arith)
        requires
            a == n / 0x1000000,
            b == (n / 0x10000) % 0x100,
            c == (n / 0x100) % 0x100,
            d == n % 0x100,
    ;
}

/// Reading back the bytes of a 64-bit integer gives the integer.
pub proof fn lemma_u64_roundtrip(n: u64)
    ensures
        be_u64_at(u64_be_bytes(n), 0) == n,
{
    let hi = (n / 0x1_0000_0000) as u32;
    let lo = (n % 0x1_0000_0000) as u32;
    lemma_u32_roundtrip(hi);
    lemma_u32_roundtrip(lo);
    let s = u64_be_bytes(n);
    assert(s.subrange(0, 4) =~= u32_be_bytes(hi));
    assert(s.subrange(4, 8) =~= u32_be_bytes(lo));
    assert(be_u32_at(s, 0) == be_u32_at(u32_be_bytes(hi), 0));
    assert(be_u32_at(s, 4) == be_u32_at(u32_be_bytes(lo), 0));
    assert(hi as int * 0x1_0000_0000 + lo as int == n) by (nonlinear_arith)
        requires
            hi == n / 0x1_0000_0000,
            lo == n % 0x1_0000_0000,
    ;
}

} // verus!
