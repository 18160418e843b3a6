//! Byte sequences: big- and little-endian integers, appending, searching.

use vstd::prelude::*;

verus! {

/// The low 16 bits of `n`, most significant byte first.
pub open spec fn be16_bytes(n: int) -> Seq<u8> {
    seq![((n / 0x100) % 0x100) as u8, (n % 0x100) as u8]
}

/// The low 24 bits of `n`, most significant byte first.
pub open spec fn be24_bytes(n: int) -> Seq<u8> {
    seq![((n / 0x1_0000) % 0x100) as u8, ((n / 0x100) % 0x100) as u8, (n % 0x100) as u8]
}

/// The low 32 bits of `n`, most significant byte first.
pub open spec fn be32_bytes(n: int) -> Seq<u8> {
    seq![
        ((n / 0x100_0000) % 0x100) as u8,
        ((n / 0x1_0000) % 0x100) as u8,
        ((n / 0x100) % 0x100) as u8,
        (n % 0x100) as u8,
    ]
}

/// The low 64 bits of `n`, most significant byte first.
pub open spec fn be64_bytes(n: int) -> Seq<u8> {
    be32_bytes(n / 0x1_0000_0000) + be32_bytes(n)
}

/// The low 32 bits of `n`, least significant byte first.
pub open spec fn le32_bytes(n: int) -> Seq<u8> {
    seq![
        (n % 0x100) as u8,
        ((n / 0x100) % 0x100) as u8,
        ((n / 0x1_0000) % 0x100) as u8,
        ((n / 0x100_0000) % 0x100) as u8,
    ]
}

/// The value of a byte sequence read most significant byte first.
pub open spec fn be_value(s: Seq<u8>) -> nat
    decreases s.len(),
{
    if s.len() == 0 {
        0
    } else {
        be_value(s.drop_last()) * 0x100 + s.last() as nat
    }
}

/// `n` zero bytes.
pub open spec fn zeros(n: nat) -> Seq<u8> {
    Seq::new(n, |i: int| 0u8)
}

/// Appending is associative: the shape every byte builder below reasons in.
pub broadcast proof fn concat_assoc<A>(a: Seq<A>, b: Seq<A>, c: Seq<A>)
    ensures
        #[trigger] ((a + b) + c) == a + (b + c),
{
    assert(((a + b) + c) =~= a + (b + c));
}

/// Append `other`.
pub fn put(buf: &mut Vec<u8>, other: &[u8])
    ensures
        final(buf)@ == old(buf)@ + other@,
{
    buf.extend_from_slice(other);
    assert(buf@ =~= old(buf)@ + other@);
}

/// Append one byte.
pub fn put_byte(buf: &mut Vec<u8>, b: u8)
    ensures
        final(buf)@ == old(buf)@ + seq![b],
{
    buf.push(b);
    assert(buf@ =~= old(buf)@ + seq![b]);
}

/// Append `n` zero bytes.
pub fn put_zeros(buf: &mut Vec<u8>, n: usize)
    ensures
        final(buf)@ == old(buf)@ + zeros(n as nat),
{
    let mut i: usize = 0;
    while i < n
        invariant
            i <= n,
            buf@ == old(buf)@ + zeros(i as nat),
        decreases n - i,
    {
        buf.push(0);
        i = i + 1;
        assert(buf@ =~= old(buf)@ + zeros(i as nat));
    }
}

/// Append a 16-bit integer, big-endian.
pub fn be16(buf: &mut Vec<u8>, v: u16)
    ensures
        final(buf)@ == old(buf)@ + be16_bytes(v as int),
{
    buf.push((v / 0x100) as u8);
    buf.push((v % 0x100) as u8);
    assert(buf@ =~= old(buf)@ + be16_bytes(v as int));
}

/// Append a 24-bit integer, big-endian (the high byte of `v` is dropped).
pub fn be24(buf: &mut Vec<u8>, v: u32)
    ensures
        final(buf)@ == old(buf)@ + be24_bytes(v as int),
{
    buf.push(((v / 0x1_0000) % 0x100) as u8);
    buf.push(((v / 0x100) % 0x100) as u8);
    buf.push((v % 0x100) as u8);
    assert(buf@ =~= old(buf)@ + be24_bytes(v as int));
}

/// Append a 32-bit integer, big-endian.
pub fn be32(buf: &mut Vec<u8>, v: u32)
    ensures
        final(buf)@ == old(buf)@ + be32_bytes(v as int),
{
    buf.push((v / 0x100_0000) as u8);
    buf.push(((v / 0x1_0000) % 0x100) as u8);
    buf.push(((v / 0x100) % 0x100) as u8);
    buf.push((v % 0x100) as u8);
    assert(buf@ =~= old(buf)@ + be32_bytes(v as int));
}

/// Append a 64-bit integer, big-endian.
pub fn be64(buf: &mut Vec<u8>, v: u64)
    ensures
        final(buf)@ == old(buf)@ + be64_bytes(v as int),
{
    be32(buf, (v / 0x1_0000_0000) as u32);
    be32(buf, (v % 0x1_0000_0000) as u32);
    assert(be32_bytes(v as int) =~= be32_bytes((v % 0x1_0000_0000) as int)) by {
        lemma_be32_low(v as int);
    }
    assert(buf@ =~= old(buf)@ + be64_bytes(v as int));
}

/// Append a 32-bit integer, little-endian.
pub fn le32(buf: &mut Vec<u8>, v: u32)
    ensures
        final(buf)@ == old(buf)@ + le32_bytes(v as int),
{
    buf.push((v % 0x100) as u8);
    buf.push(((v / 0x100) % 0x100) as u8);
    buf.push(((v / 0x1_0000) % 0x100) as u8);
    buf.push((v / 0x100_0000) as u8);
    assert(buf@ =~= old(buf)@ + le32_bytes(v as int));
}

/// The four low base-256 digits of `n` are those of its low 32 bits.
proof fn lemma_low_digits(q: int, r: int, n: int)
    requires
        n == 0x1_0000_0000 * q + r,
        0 <= r < 0x1_0000_0000,
    ensures
        n % 0x100 == r % 0x100,
        (n / 0x100) % 0x100 == (r / 0x100) % 0x100,
        (n / 0x1_0000) % 0x100 == (r / 0x1_0000) % 0x100,
        (n / 0x100_0000) % 0x100 == (r / 0x100_0000) % 0x100,
{
    assert(n % 0x100 == r % 0x100) by (nonlinear_arith)
        requires
            n == 0x1_0000_0000 * q + r,
    ;
    assert(n / 0x100 == 0x100_0000 * q + r / 0x100) by (nonlinear_arith)
        requires
            n == 0x1_0000_0000 * q + r,
    ;
    assert(n / 0x1_0000 == 0x1_0000 * q + r / 0x1_0000) by (nonlinear_arith)
        requires
            n == 0x1_0000_0000 * q + r,
    ;
    assert(n / 0x100_0000 == 0x100 * q + r / 0x100_0000) by (nonlinear_arith)
        requires
            n == 0x1_0000_0000 * q + r,
    ;
    let a = r / 0x100;
    let b = r / 0x1_0000;
    let c = r / 0x100_0000;
    assert((0x100_0000 * q + a) % 0x100 == a % 0x100) by (nonlinear_arith);
    assert((0x1_0000 * q + b) % 0x100 == b % 0x100) by (nonlinear_arith);
    assert((0x100 * q + c) % 0x100 == c % 0x100) by (nonlinear_arith);
}

/// Only the low 32 bits of a number reach its 32-bit form.
pub proof fn lemma_be32_low(n: int)
    requires
        0 <= n,
    ensures
        be32_bytes(n % 0x1_0000_0000) == be32_bytes(n),
{
    lemma_low_digits(n / 0x1_0000_0000, n % 0x1_0000_0000, n);
}

/// Only the low 24 bits of a number reach its 24-bit form.
pub proof fn lemma_be24_low(n: int)
    requires
        0 <= n,
    ensures
        be24_bytes(n % 0x100_0000) == be24_bytes(n),
{
    let q = n / 0x100_0000;
    let r = n % 0x100_0000;
    assert(n / 0x100 == 0x1_0000 * q + r / 0x100);
    assert(n / 0x1_0000 == 0x100 * q + r / 0x1_0000);
    assert((0x1_0000 * q + r / 0x100) % 0x100 == (r / 0x100) % 0x100);
    assert((0x100 * q + r / 0x1_0000) % 0x100 == (r / 0x1_0000) % 0x100);
    assert(n % 0x100 == r % 0x100);
}

/// Only the low 16 bits of a number reach its 16-bit form.
pub proof fn lemma_be16_low(n: int)
    requires
        0 <= n,
    ensures
        be16_bytes(n % 0x1_0000) == be16_bytes(n),
{
}

/// A big-endian 32-bit form reads back as the number it was made from.
pub proof fn lemma_be32_value(n: int)
    requires
        0 <= n < 0x1_0000_0000,
    ensures
        be_value(be32_bytes(n)) == n,
{
    let s = be32_bytes(n);
    reveal_with_fuel(be_value, 5);
    assert(s.drop_last() =~= seq![s[0], s[1], s[2]]);
    assert(s.drop_last().drop_last() =~= seq![s[0], s[1]]);
    assert(s.drop_last().drop_last().drop_last() =~= seq![s[0]]);
    assert(s.drop_last().drop_last().drop_last().drop_last() =~= Seq::<u8>::empty());
}

/// A run of bytes stands for the value of its head, shifted by its tail's
/// width, plus the value of its tail.
proof fn lemma_be_value_tail(a: Seq<u8>, b: Seq<u8>)
    requires
        b.len() == 4,
    ensures
        be_value(a + b) == be_value(a) * 0x1_0000_0000 + be_value(b),
{
    let s = a + b;
    reveal_with_fuel(be_value, 5);
    assert(s.drop_last() =~= a + seq![b[0], b[1], b[2]]);
    assert(s.drop_last().drop_last() =~= a + seq![b[0], b[1]]);
    assert(s.drop_last().drop_last().drop_last() =~= a + seq![b[0]]);
    assert(s.drop_last().drop_last().drop_last().drop_last() =~= a);
    assert(b.drop_last() =~= seq![b[0], b[1], b[2]]);
    assert(b.drop_last().drop_last() =~= seq![b[0], b[1]]);
    assert(b.drop_last().drop_last().drop_last() =~= seq![b[0]]);
    assert(b.drop_last().drop_last().drop_last().drop_last() =~= Seq::<u8>::empty());
}

/// A big-endian 64-bit form reads back as the number it was made from.
pub proof fn lemma_be64_value(n: int)
    requires
        0 <= n < 0x1_0000_0000_0000_0000,
    ensures
        be_value(be64_bytes(n)) == n,
{
    lemma_be_value_tail(be32_bytes(n / 0x1_0000_0000), be32_bytes(n));
    lemma_be32_low(n);
    lemma_be32_value(n / 0x1_0000_0000);
    lemma_be32_value(n % 0x1_0000_0000);
}

} // verus!
