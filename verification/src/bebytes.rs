//! Big-endian byte images of machine words.
//!
//! Literal operands are stored as the eight big-endian bytes of a `u64`;
//! narrower instruction fields slice a suffix off that image. Addresses are
//! patched into instructions as the low four bytes, again big-endian.

use vstd::prelude::*;

verus! {

/// The eight big-endian bytes of `v`, most significant first.
pub open spec fn spec_u64_to_be_bytes(v: u64) -> Seq<u8> {
    seq![
        (v >> 56) as u8,
        (v >> 48) as u8,
        (v >> 40) as u8,
        (v >> 32) as u8,
        (v >> 24) as u8,
        (v >> 16) as u8,
        (v >> 8) as u8,
        v as u8,
    ]
}

/// The `u64` whose big-endian byte image an 8-byte sequence is.
pub open spec fn spec_u64_from_be_bytes(s: Seq<u8>) -> u64
    recommends
        s.len() == 8,
{
    (((s[0] as u64) << 56) | ((s[1] as u64) << 48) | ((s[2] as u64) << 40) | ((s[3] as u64) << 32)
        | ((s[4] as u64) << 24) | ((s[5] as u64) << 16) | ((s[6] as u64) << 8) | (s[7] as u64)) as u64
}

/// Writing a `u64` big-endian and reading the bytes back is the identity.
pub proof fn lemma_u64_be_bytes_roundtrip(v: u64)
    ensures
        spec_u64_from_be_bytes(spec_u64_to_be_bytes(v)) == v,
{
    assert((((((v >> 56) as u8) as u64) << 56) | ((((v >> 48) as u8) as u64) << 48) | ((((v
        >> 40) as u8) as u64) << 40) | ((((v >> 32) as u8) as u64) << 32) | ((((v
        >> 24) as u8) as u64) << 24) | ((((v >> 16) as u8) as u64) << 16) | ((((v
        >> 8) as u8) as u64) << 8) | (((v as u8) as u64))) == v) by (bit_vector);
}

/// The low four bytes of an address, most significant first: the image an
/// address patch writes into an instruction.
pub open spec fn spec_addr_to_be_bytes(a: usize) -> Seq<u8> {
    spec_u64_to_be_bytes(a as u64).subrange(4, 8)
}

/// The four patch bytes of an address read back as the address's low 32 bits.
pub proof fn lemma_addr_bytes_low32(a: usize)
    ensures
        spec_addr_to_be_bytes(a) == spec_u64_to_be_bytes((a as u64) & 0xFFFFFFFF).subrange(4, 8),
{
    let v = a as u64;
    let m = v & 0xFFFFFFFF;
    assert(((v >> 24) as u8) == ((m >> 24) as u8) && ((v >> 16) as u8) == ((m >> 16) as u8) && ((v
        >> 8) as u8) == ((m >> 8) as u8) && (v as u8) == (m as u8)) by (bit_vector)
        requires
            m == v & 0xFFFFFFFF,
    ;
    assert(spec_addr_to_be_bytes(a) =~= spec_u64_to_be_bytes(m).subrange(4, 8));
}

/// The eight big-endian bytes of `v`, as a vector.
pub fn u64_to_be_bytes(v: u64) -> (r: Vec<u8>)
    ensures
        r@ == spec_u64_to_be_bytes(v),
{
    let mut r: Vec<u8> = Vec::new();
    r.push((v >> 56) as u8);
    r.push((v >> 48) as u8);
    r.push((v >> 40) as u8);
    r.push((v >> 32) as u8);
    r.push((v >> 24) as u8);
    r.push((v >> 16) as u8);
    r.push((v >> 8) as u8);
    r.push(v as u8);
    assert(r@ =~= spec_u64_to_be_bytes(v));
    r
}

/// Appends the low four address bytes, most significant first.
pub fn push_addr_be_bytes(b: &mut Vec<u8>, a: usize)
    ensures
        final(b)@ == old(b)@ + spec_addr_to_be_bytes(a),
{
    let v = a as u64;
    b.push((v >> 24) as u8);
    b.push((v >> 16) as u8);
    b.push((v >> 8) as u8);
    b.push(v as u8);
    assert(b@ =~= old(b)@ + spec_addr_to_be_bytes(a));
}

/// Appends `n[from..to]` to `b`.
pub fn push_range(b: &mut Vec<u8>, n: &Vec<u8>, from: usize, to: usize)
    requires
        from <= to <= n@.len(),
    ensures
        final(b)@ == old(b)@ + n@.subrange(from as int, to as int),
{
    let mut i: usize = from;
    while i < to
        invariant
            from <= i <= to <= n@.len(),
            b@ == old(b)@ + n@.subrange(from as int, i as int),
        decreases to - i,
    {
        b.push(n[i]);
        i = i + 1;
        assert(b@ =~= old(b)@ + n@.subrange(from as int, i as int));
    }
}

/// Appends the suffix `n[from..]` to `b`.
pub fn push_suffix(b: &mut Vec<u8>, n: &Vec<u8>, from: usize)
    requires
        from <= n@.len(),
    ensures
        final(b)@ == old(b)@ + n@.subrange(from as int, n@.len() as int),
{
    let mut i: usize = from;
    while i < n.len()
        invariant
            from <= i <= n@.len(),
            b@ == old(b)@ + n@.subrange(from as int, i as int),
        decreases n@.len() - i,
    {
        b.push(n[i]);
        i = i + 1;
        assert(b@ =~= old(b)@ + n@.subrange(from as int, i as int));
    }
    assert(b@ =~= old(b)@ + n@.subrange(from as int, n@.len() as int));
}

} // verus!
