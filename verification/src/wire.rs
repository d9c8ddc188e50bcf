//! Numbers on the wire: big-endian, signed numbers in two's complement.
use vstd::prelude::*;

verus! {

/// The two bytes of a number, most significant first.
pub open spec fn be16(n: u16) -> Seq<u8> {
    seq![(n / 0x100) as u8, (n % 0x100) as u8]
}

/// The four bytes of a number, most significant first.
pub open spec fn be32(n: u32) -> Seq<u8> {
    seq![
        (n / 0x100_0000) as u8,
        (n / 0x1_0000 % 0x100) as u8,
        (n / 0x100 % 0x100) as u8,
        (n % 0x100) as u8,
    ]
}

/// The eight bytes of a number, most significant first.
pub open spec fn be64(n: u64) -> Seq<u8> {
    be32((n / 0x1_0000_0000) as u32) + be32((n % 0x1_0000_0000) as u32)
}

/// The number with the two bytes of `s` from `at` on.
pub open spec fn u16_in(s: Seq<u8>, at: int) -> u16 {
    (s[at] * 0x100 + s[at + 1]) as u16
}

/// The number with the four bytes of `s` from `at` on.
pub open spec fn u32_in(s: Seq<u8>, at: int) -> u32 {
    (s[at] * 0x100_0000 + s[at + 1] * 0x1_0000 + s[at + 2] * 0x100 + s[at + 3]) as u32
}

/// The number with the eight bytes of `s` from `at` on.
pub open spec fn u64_in(s: Seq<u8>, at: int) -> u64 {
    (u32_in(s, at) * 0x1_0000_0000 + u32_in(s, at + 4)) as u64
}

/// Appends the bytes of a number.
pub fn put_u16(bytes: &mut Vec<u8>, n: u16)
    ensures
        final(bytes)@ == old(bytes)@ + be16(n),
{
    bytes.push((n / 0x100) as u8);
    bytes.push((n % 0x100) as u8);
    assert(bytes@ =~= old(bytes)@ + be16(n));
}

/// Appends the bytes of a number.
pub fn put_u32(bytes: &mut Vec<u8>, n: u32)
    ensures
        final(bytes)@ == old(bytes)@ + be32(n),
{
    bytes.push((n / 0x100_0000) as u8);
    bytes.push((n / 0x1_0000 % 0x100) as u8);
    bytes.push((n / 0x100 % 0x100) as u8);
    bytes.push((n % 0x100) as u8);
    assert(bytes@ =~= old(bytes)@ + be32(n));
}

/// Appends the bytes of a number.
pub fn put_u64(bytes: &mut Vec<u8>, n: u64)
    ensures
        final(bytes)@ == old(bytes)@ + be64(n),
{
    put_u32(bytes, (n / 0x1_0000_0000) as u32);
    put_u32(bytes, (n % 0x1_0000_0000) as u32);
    assert(bytes@ =~= old(bytes)@ + be64(n));
}

/// Reads the number that starts at `at`.
pub fn get_u16(bytes: &[u8], at: usize) -> (r: u16)
    requires
        at + 2 <= bytes@.len(),
    ensures
        r == u16_in(bytes@, at as int),
        r == bytes@[at as int] * 0x100 + bytes@[at + 1],
{
    bytes[at] as u16 * 0x100 + bytes[at + 1] as u16
}

/// Reads the number that starts at `at`.
pub fn get_u32(bytes: &[u8], at: usize) -> (r: u32)
    requires
        at + 4 <= bytes@.len(),
    ensures
        r == u32_in(bytes@, at as int),
        r == bytes@[at as int] * 0x100_0000 + bytes@[at + 1] * 0x1_0000 + bytes@[at + 2] * 0x100
            + bytes@[at + 3],
{
    bytes[at] as u32 * 0x100_0000 + bytes[at + 1] as u32 * 0x1_0000 + bytes[at + 2] as u32 * 0x100
        + bytes[at + 3] as u32
}

/// Reads the number that starts at `at`.
pub fn get_u64(bytes: &[u8], at: usize) -> (r: u64)
    requires
        at + 8 <= bytes@.len(),
    ensures
        r == u64_in(bytes@, at as int),
{
    assert(at + 8 <= bytes.len());
    get_u32(bytes, at) as u64 * 0x1_0000_0000 + get_u32(bytes, at + 4) as u64
}

/// A number is made up of its four bytes.
pub proof fn lemma_be32(s: Seq<u8>, at: int, n: u32)
    requires
        0 <= at,
        at + 4 <= s.len(),
        s.subrange(at, at + 4) == be32(n),
    ensures
        u32_in(s, at) == n,
{
    let part = s.subrange(at, at + 4);
    assert(part[0] == s[at] && part[1] == s[at + 1] && part[2] == s[at + 2] && part[3] == s[at
        + 3]);
}

/// Reading a 16-bit number gives back the number that was written.
pub proof fn law_u16_round_trip(front: Seq<u8>, n: u16, back: Seq<u8>)
    ensures
        u16_in(front + be16(n) + back, front.len() as int) == n,
{
}

/// Reading a 32-bit number gives back the number that was written.
pub proof fn law_u32_round_trip(front: Seq<u8>, n: u32, back: Seq<u8>)
    ensures
        u32_in(front + be32(n) + back, front.len() as int) == n,
{
    let at = front.len() as int;
    assert((front + be32(n) + back).subrange(at, at + 4) =~= be32(n));
    lemma_be32(front + be32(n) + back, at, n);
}

/// Reading a 64-bit number gives back the number that was written.
pub proof fn law_u64_round_trip(front: Seq<u8>, n: u64, back: Seq<u8>)
    ensures
        u64_in(front + be64(n) + back, front.len() as int) == n,
{
    let at = front.len() as int;
    let s = front + be64(n) + back;
    let (high, low) = ((n / 0x1_0000_0000) as u32, (n % 0x1_0000_0000) as u32);
    assert(s.subrange(at, at + 4) =~= be32(high));
    assert(s.subrange(at + 4, at + 8) =~= be32(low));
    lemma_be32(s, at, high);
    lemma_be32(s, at + 4, low);
}

/// The bytes of a 16-bit number are its two digits in base 256.
pub proof fn law_be16(n: u16)
    ensures
        be16(n).len() == 2,
        be16(n)[0] * 0x100 + be16(n)[1] == n,
{
}

/// The bytes of a 32-bit number are its four digits in base 256.
pub proof fn law_be32(n: u32)
    ensures
        be32(n).len() == 4,
        be32(n)[0] * 0x100_0000 + be32(n)[1] * 0x1_0000 + be32(n)[2] * 0x100 + be32(n)[3] == n,
{
}

/// The bytes of a 64-bit number are its eight digits in base 256.
pub proof fn law_be64(n: u64)
    ensures
        be64(n).len() == 8,
        be64(n)[0] * 0x100_0000_0000_0000 + be64(n)[1] * 0x1_0000_0000_0000 + be64(n)[2]
            * 0x100_0000_0000 + be64(n)[3] * 0x1_0000_0000 + be64(n)[4] * 0x100_0000 + be64(n)[5]
            * 0x1_0000 + be64(n)[6] * 0x100 + be64(n)[7] == n,
{
    let (high, low) = ((n / 0x1_0000_0000) as u32, (n % 0x1_0000_0000) as u32);
    law_be32(high);
    law_be32(low);
    assert(be64(n)[0] == be32(high)[0] && be64(n)[1] == be32(high)[1] && be64(n)[2] == be32(
        high,
    )[2] && be64(n)[3] == be32(high)[3]);
    assert(be64(n)[4] == be32(low)[0] && be64(n)[5] == be32(low)[1] && be64(n)[6] == be32(low)[2]
        && be64(n)[7] == be32(low)[3]);
}

/// A 16-bit number is made up of its two bytes.
pub proof fn lemma_be16(s: Seq<u8>, at: int, n: u16)
    requires
        0 <= at,
        at + 2 <= s.len(),
        s.subrange(at, at + 2) == be16(n),
    ensures
        u16_in(s, at) == n,
{
    let part = s.subrange(at, at + 2);
    assert(part[0] == s[at] && part[1] == s[at + 1]);
}

/// A 64-bit number is made up of its eight bytes.
pub proof fn lemma_be64(s: Seq<u8>, at: int, n: u64)
    requires
        0 <= at,
        at + 8 <= s.len(),
        s.subrange(at, at + 8) == be64(n),
    ensures
        u64_in(s, at) == n,
{
    let (high, low) = ((n / 0x1_0000_0000) as u32, (n % 0x1_0000_0000) as u32);
    assert(be64(n).subrange(0, 4) =~= be32(high));
    assert(be64(n).subrange(4, 8) =~= be32(low));
    assert(s.subrange(at, at + 4) =~= s.subrange(at, at + 8).subrange(0, 4));
    assert(s.subrange(at + 4, at + 8) =~= s.subrange(at, at + 8).subrange(4, 8));
    lemma_be32(s, at, high);
    lemma_be32(s, at + 4, low);
}

/// Numbers are read the same from a part of the bytes.
pub proof fn lemma_number_in_part(s: Seq<u8>, at: int, part: Seq<u8>)
    requires
        0 <= at,
        at + part.len() <= s.len(),
        s.subrange(at, at + part.len()) == part,
    ensures
        part.len() == 2 ==> u16_in(s, at) == u16_in(part, 0),
        part.len() == 4 ==> u32_in(s, at) == u32_in(part, 0),
        part.len() == 8 ==> u64_in(s, at) == u64_in(part, 0),
{
    assert forall|i: int| 0 <= i < part.len() implies s[at + i] == part[i] by {
        assert(part[i] == s.subrange(at, at + part.len())[i]);
    }
    if part.len() == 2 {
        assert(s[at + 0] == part[0] && s[at + 1] == part[1]);
    }
    if part.len() == 4 {
        assert(s[at + 0] == part[0] && s[at + 1] == part[1] && s[at + 2] == part[2] && s[at + 3]
            == part[3]);
    }
    if part.len() == 8 {
        assert(s[at + 0] == part[0] && s[at + 1] == part[1] && s[at + 2] == part[2] && s[at + 3]
            == part[3]);
        assert(s[at + 4] == part[4] && s[at + 5] == part[5] && s[at + 6] == part[6] && s[at + 7]
            == part[7]);
    }
}

/// Numbers are read from their own bytes.
pub proof fn lemma_own_bytes(a: u16, b: u32, c: u64)
    ensures
        be16(a).len() == 2,
        be32(b).len() == 4,
        be64(c).len() == 8,
        u16_in(be16(a), 0) == a,
        u32_in(be32(b), 0) == b,
        u64_in(be64(c), 0) == c,
{
    assert(be16(a).subrange(0, 2) =~= be16(a));
    assert(be32(b).subrange(0, 4) =~= be32(b));
    assert(be64(c).subrange(0, 8) =~= be64(c));
    lemma_be16(be16(a), 0, a);
    lemma_be32(be32(b), 0, b);
    lemma_be64(be64(c), 0, c);
}

/// A signed number comes back from its two's complement.
pub proof fn lemma_signed(a: i8, b: i16, c: i32, d: i64)
    ensures
        (a as u8) as i8 == a,
        (b as u16) as i16 == b,
        (c as u32) as i32 == c,
        (d as u64) as i64 == d,
{
    assert((a as u8) as i8 == a) by (bit_vector);
    assert((b as u16) as i16 == b) by (bit_vector);
    assert((c as u32) as i32 == c) by (bit_vector);
    assert((d as u64) as i64 == d) by (bit_vector);
}

} // verus!
