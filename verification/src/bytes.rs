//! Numbers as big-endian bytes.

use vstd::prelude::*;

verus! {

/// The two bytes of a 16-bit number, high byte first.
pub open spec fn be16(n: u16) -> Seq<u8> {
    seq![(n / 0x100) as u8, (n % 0x100) as u8]
}

/// The four bytes of a 32-bit number, high byte first.
pub open spec fn be32(n: u32) -> Seq<u8> {
    seq![
        (n / 0x100_0000) as u8,
        (n / 0x1_0000 % 0x100) as u8,
        (n / 0x100 % 0x100) as u8,
        (n % 0x100) as u8,
    ]
}

/// The eight bytes of a 64-bit number, high byte first.
pub open spec fn be64(n: u64) -> Seq<u8> {
    be32((n / 0x1_0000_0000) as u32) + be32((n % 0x1_0000_0000) as u32)
}

/// The 32-bit pattern of a signed number in two's complement.
pub open spec fn two_complement(n: i32) -> u32 {
    if n < 0 {
        (n + 0x1_0000_0000) as u32
    } else {
        n as u32
    }
}

/// The number whose big-endian bytes are `b`.
pub open spec fn be_value(b: Seq<u8>) -> nat
    decreases b.len(),
{
    if b.len() == 0 {
        0
    } else {
        be_value(b.drop_last()) * 0x100 + b.last() as nat
    }
}

/// Appends one byte.
pub fn push_u8(v: &mut Vec<u8>, b: u8)
    ensures
        final(v)@ == old(v)@.push(b),
{
    v.push(b);
}

/// Appends a 16-bit number.
pub fn push_u16(v: &mut Vec<u8>, n: u16)
    ensures
        final(v)@ == old(v)@ + be16(n),
{
    v.push((n / 0x100) as u8);
    v.push((n % 0x100) as u8);
}

/// Appends a 32-bit number.
pub fn push_u32(v: &mut Vec<u8>, n: u32)
    ensures
        final(v)@ == old(v)@ + be32(n),
{
    v.push((n / 0x100_0000) as u8);
    v.push((n / 0x1_0000 % 0x100) as u8);
    v.push((n / 0x100 % 0x100) as u8);
    v.push((n % 0x100) as u8);
}

/// Appends a signed 32-bit number in two's complement.
pub fn push_i32(v: &mut Vec<u8>, n: i32)
    ensures
        final(v)@ == old(v)@ + be32(two_complement(n)),
{
    let bits: u32 = if n < 0 {
        (n as i64 + 0x1_0000_0000i64) as u32
    } else {
        n as u32
    };
    push_u32(v, bits);
}

/// Appends a 64-bit number.
pub fn push_u64(v: &mut Vec<u8>, n: u64)
    ensures
        final(v)@ == old(v)@ + be64(n),
{
    let ghost start = v@;
    push_u32(v, (n / 0x1_0000_0000) as u32);
    push_u32(v, (n % 0x1_0000_0000) as u32);
    proof {
        let hi = be32((n / 0x1_0000_0000) as u32);
        let lo = be32((n % 0x1_0000_0000) as u32);
        assert(start + hi + lo == start + (hi + lo));
    }
}

/// Appends every byte of `s`.
pub fn push_all(v: &mut Vec<u8>, s: &[u8])
    ensures
        final(v)@ == old(v)@ + s@,
{
    let ghost start = v@;
    let mut i: usize = 0;
    while i < s.len()
        invariant
            i <= s.len(),
            v@ == start + s@.take(i as int),
        decreases s.len() - i,
    {
        v.push(s[i]);
        proof {
            assert(s@.take(i + 1) == s@.take(i as int).push(s@[i as int]));
            assert(start + s@.take(i + 1) == (start + s@.take(i as int)).push(s@[i as int]));
        }
        i = i + 1;
    }
    proof {
        assert(s@.take(s@.len() as int) == s@);
    }
}

/// The number whose big-endian bytes are the eight or fewer bytes of `b`.
pub fn read_be(b: &[u8]) -> (r: u64)
    requires
        b.len() <= 8,
    ensures
        r == be_value(b@),
{
    let mut n: u64 = 0;
    let mut i: usize = 0;
    proof {
        assert(b@.take(0).len() == 0);
    }
    while i < b.len()
        invariant
            i <= b.len() <= 8,
            n == be_value(b@.take(i as int)),
            i == 0 ==> n < 1,
            i == 1 ==> n < 0x100,
            i == 2 ==> n < 0x1_0000,
            i == 3 ==> n < 0x100_0000,
            i == 4 ==> n < 0x1_0000_0000,
            i == 5 ==> n < 0x100_0000_0000,
            i == 6 ==> n < 0x1_0000_0000_0000,
            i == 7 ==> n < 0x100_0000_0000_0000,
        decreases b.len() - i,
    {
        proof {
            assert(b@.take(i + 1).drop_last() == b@.take(i as int));
        }
        n = n * 0x100 + b[i] as u64;
        i = i + 1;
    }
    proof {
        assert(b@.take(b@.len() as int) == b@);
    }
    n
}

/// Law: reading back two bytes gives the 16-bit number that was written.
pub proof fn law_be16_reads_back(n: u16)
    ensures
        be_value(be16(n)) == n,
{
    reveal_with_fuel(be_value, 3);
    let b = be16(n);
    assert(b.drop_last() == seq![(n / 0x100) as u8]);
    assert(b.drop_last().drop_last() == Seq::<u8>::empty());
}

/// Law: reading back four bytes gives the 32-bit number that was written.
pub proof fn law_be32_reads_back(n: u32)
    ensures
        be_value(be32(n)) == n,
{
    reveal_with_fuel(be_value, 5);
    let b = be32(n);
    assert(b.drop_last() == seq![
        (n / 0x100_0000) as u8,
        (n / 0x1_0000 % 0x100) as u8,
        (n / 0x100 % 0x100) as u8,
    ]);
    assert(b.drop_last().drop_last() == seq![(n / 0x100_0000) as u8, (n / 0x1_0000 % 0x100) as u8]);
    assert(b.drop_last().drop_last().drop_last() == seq![(n / 0x100_0000) as u8]);
    assert(b.drop_last().drop_last().drop_last().drop_last() == Seq::<u8>::empty());
}

proof fn lemma_be_value_concat(a: Seq<u8>, b: Seq<u8>)
    requires
        b.len() == 4,
    ensures
        be_value(a + b) == be_value(a) * 0x1_0000_0000 + be_value(b),
{
    reveal_with_fuel(be_value, 5);
    let s = a + b;
    assert(s.drop_last() == a + b.drop_last());
    assert(s.drop_last().drop_last() == a + b.drop_last().drop_last());
    assert(s.drop_last().drop_last().drop_last() == a + b.drop_last().drop_last().drop_last());
    assert(s.drop_last().drop_last().drop_last().drop_last() == a);
    assert(b.drop_last().drop_last().drop_last().drop_last() == Seq::<u8>::empty());
}

/// Law: reading back eight bytes gives the 64-bit number that was written.
pub proof fn law_be64_reads_back(n: u64)
    ensures
        be_value(be64(n)) == n,
{
    let hi = (n / 0x1_0000_0000) as u32;
    let lo = (n % 0x1_0000_0000) as u32;
    law_be32_reads_back(hi);
    law_be32_reads_back(lo);
    lemma_be_value_concat(be32(hi), be32(lo));
}

/// Law: the first of several big-endian bytes counts most.
pub proof fn law_first_byte_counts_most(b: Seq<u8>, c: u8)
    ensures
        be_value(Seq::empty()) == 0,
        be_value(b.push(c)) == be_value(b) * 0x100 + c,
{
    assert(b.push(c).drop_last() =~= b);
}

/// Law: a signed number and its pattern differ by nothing, or by 2^32 below zero.
pub proof fn law_two_complement(n: i32)
    ensures
        n >= 0 ==> two_complement(n) == n,
        n < 0 ==> two_complement(n) == n + 0x1_0000_0000,
        n < 0 <==> two_complement(n) >= 0x8000_0000,
{
}

} // verus!
