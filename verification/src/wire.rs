use vstd::prelude::*;

verus! {

// Big-endian (and one little-endian) byte images of the fixed-width
// integer fields that appear on the wire, together with the exec
// readers and writers the codec layers use.

pub open spec fn spec_u16_be(v: u16) -> Seq<u8> {
    seq![(v >> 8) as u8, v as u8]
}

pub open spec fn spec_u24_be(v: u32) -> Seq<u8> {
    seq![(v >> 16) as u8, (v >> 8) as u8, v as u8]
}

pub open spec fn spec_u32_be(v: u32) -> Seq<u8> {
    seq![(v >> 24) as u8, (v >> 16) as u8, (v >> 8) as u8, v as u8]
}

pub open spec fn spec_u32_le(v: u32) -> Seq<u8> {
    seq![v as u8, (v >> 8) as u8, (v >> 16) as u8, (v >> 24) as u8]
}

pub open spec fn spec_u64_be(v: u64) -> Seq<u8> {
    seq![
        (v >> 56) as u8,
        (v >> 48) as u8,
        (v >> 40) as u8,
        (v >> 32) as u8,
        (v >> 24) as u8,
        (v >> 16) as u8,
        (v >> 8) as u8,
        v as u8,
    ]
}

pub open spec fn be16(b0: u8, b1: u8) -> u16 {
    ((b0 as u16) << 8) | (b1 as u16)
}

pub open spec fn be24(b0: u8, b1: u8, b2: u8) -> u32 {
    ((b0 as u32) << 16) | ((b1 as u32) << 8) | (b2 as u32)
}

pub open spec fn be32(b0: u8, b1: u8, b2: u8, b3: u8) -> u32 {
    ((b0 as u32) << 24) | ((b1 as u32) << 16) | ((b2 as u32) << 8) | (b3 as u32)
}

pub open spec fn le32(b0: u8, b1: u8, b2: u8, b3: u8) -> u32 {
    ((b3 as u32) << 24) | ((b2 as u32) << 16) | ((b1 as u32) << 8) | (b0 as u32)
}

pub open spec fn be64(
    b0: u8, b1: u8, b2: u8, b3: u8, b4: u8, b5: u8, b6: u8, b7: u8,
) -> u64 {
    ((b0 as u64) << 56) | ((b1 as u64) << 48) | ((b2 as u64) << 40) | ((b3 as u64) << 32)
        | ((b4 as u64) << 24) | ((b5 as u64) << 16) | ((b6 as u64) << 8) | (b7 as u64)
}

/// Reading back the two big-endian bytes of a 16-bit value gives the value.
pub proof fn lemma_u16_be_round_trip(v: u16)
    ensures
        be16(spec_u16_be(v)[0], spec_u16_be(v)[1]) == v,
{
    assert(((((v >> 8) as u8) as u16) << 8 | ((v as u8) as u16)) == v) by (bit_vector);
}

/// Reading back the three big-endian bytes of a value below 2^24 gives the value.
pub proof fn lemma_u24_be_round_trip(v: u32)
    requires
        v < 0x1000000,
    ensures
        be24(spec_u24_be(v)[0], spec_u24_be(v)[1], spec_u24_be(v)[2]) == v,
{
    assert(v < 0x1000000 ==> ((((v >> 16) as u8) as u32) << 16 | (((v >> 8) as u8) as u32) << 8
        | ((v as u8) as u32)) == v) by (bit_vector);
}

/// Reading back the four big-endian bytes of a 32-bit value gives the value.
pub proof fn lemma_u32_be_round_trip(v: u32)
    ensures
        be32(spec_u32_be(v)[0], spec_u32_be(v)[1], spec_u32_be(v)[2], spec_u32_be(v)[3]) == v,
{
    assert(((((v >> 24) as u8) as u32) << 24 | (((v >> 16) as u8) as u32) << 16
        | (((v >> 8) as u8) as u32) << 8 | ((v as u8) as u32)) == v) by (bit_vector);
}

/// Reading back the four little-endian bytes of a 32-bit value gives the value.
pub proof fn lemma_u32_le_round_trip(v: u32)
    ensures
        le32(spec_u32_le(v)[0], spec_u32_le(v)[1], spec_u32_le(v)[2], spec_u32_le(v)[3]) == v,
{
    assert(((((v >> 24) as u8) as u32) << 24 | (((v >> 16) as u8) as u32) << 16
        | (((v >> 8) as u8) as u32) << 8 | ((v as u8) as u32)) == v) by (bit_vector);
}

/// Reading back the eight big-endian bytes of a 64-bit value gives the value.
pub proof fn lemma_u64_be_round_trip(v: u64)
    ensures
        be64(
            spec_u64_be(v)[0], spec_u64_be(v)[1], spec_u64_be(v)[2], spec_u64_be(v)[3],
            spec_u64_be(v)[4], spec_u64_be(v)[5], spec_u64_be(v)[6], spec_u64_be(v)[7],
        ) == v,
{
    assert(((((v >> 56) as u8) as u64) << 56 | (((v >> 48) as u8) as u64) << 48
        | (((v >> 40) as u8) as u64) << 40 | (((v >> 32) as u8) as u64) << 32
        | (((v >> 24) as u8) as u64) << 24 | (((v >> 16) as u8) as u64) << 16
        | (((v >> 8) as u8) as u64) << 8 | ((v as u8) as u64)) == v) by (bit_vector);
}

/// A three-byte big-endian field fits 24 bits.
pub proof fn lemma_be24_bound(b0: u8, b1: u8, b2: u8)
    ensures
        be24(b0, b1, b2) < 0x1000000,
{
    assert((((b0 as u32) << 16) | ((b1 as u32) << 8) | (b2 as u32)) < 0x1000000u32) by (bit_vector);
}

/// Two zero bytes read back as zero.
pub proof fn lemma_be16_zero()
    ensures
        be16(0, 0) == 0,
{
    assert((((0u8 as u16) << 8) | (0u8 as u16)) == 0) by (bit_vector);
}

pub fn push_u16_be(out: &mut Vec<u8>, v: u16)
    ensures
        final(out)@ == old(out)@ + spec_u16_be(v),
{
    out.push((v >> 8) as u8);
    out.push(v as u8);
    proof {
        assert(out@ =~= old(out)@ + spec_u16_be(v));
    }
}

pub fn push_u24_be(out: &mut Vec<u8>, v: u32)
    ensures
        final(out)@ == old(out)@ + spec_u24_be(v),
{
    out.push((v >> 16) as u8);
    out.push((v >> 8) as u8);
    out.push(v as u8);
    proof {
        assert(out@ =~= old(out)@ + spec_u24_be(v));
    }
}

pub fn push_u32_be(out: &mut Vec<u8>, v: u32)
    ensures
        final(out)@ == old(out)@ + spec_u32_be(v),
{
    out.push((v >> 24) as u8);
    out.push((v >> 16) as u8);
    out.push((v >> 8) as u8);
    out.push(v as u8);
    proof {
        assert(out@ =~= old(out)@ + spec_u32_be(v));
    }
}

pub fn push_u32_le(out: &mut Vec<u8>, v: u32)
    ensures
        final(out)@ == old(out)@ + spec_u32_le(v),
{
    out.push(v as u8);
    out.push((v >> 8) as u8);
    out.push((v >> 16) as u8);
    out.push((v >> 24) as u8);
    proof {
        assert(out@ =~= old(out)@ + spec_u32_le(v));
    }
}

pub fn push_u64_be(out: &mut Vec<u8>, v: u64)
    ensures
        final(out)@ == old(out)@ + spec_u64_be(v),
{
    out.push((v >> 56) as u8);
    out.push((v >> 48) as u8);
    out.push((v >> 40) as u8);
    out.push((v >> 32) as u8);
    out.push((v >> 24) as u8);
    out.push((v >> 16) as u8);
    out.push((v >> 8) as u8);
    out.push(v as u8);
    proof {
        assert(out@ =~= old(out)@ + spec_u64_be(v));
    }
}

pub fn read_u16_be(b: &[u8], off: usize) -> (r: u16)
    requires
        off + 2 <= b@.len(),
    ensures
        r == be16(b@[off as int], b@[off + 1]),
{
    ((b[off] as u16) << 8) | (b[off + 1] as u16)
}

pub fn read_u24_be(b: &[u8], off: usize) -> (r: u32)
    requires
        off + 3 <= b@.len(),
    ensures
        r == be24(b@[off as int], b@[off + 1], b@[off + 2]),
{
    ((b[off] as u32) << 16) | ((b[off + 1] as u32) << 8) | (b[off + 2] as u32)
}

pub fn read_u32_be(b: &[u8], off: usize) -> (r: u32)
    requires
        off + 4 <= b@.len(),
    ensures
        r == be32(b@[off as int], b@[off + 1], b@[off + 2], b@[off + 3]),
{
    ((b[off] as u32) << 24) | ((b[off + 1] as u32) << 16) | ((b[off + 2] as u32) << 8)
        | (b[off + 3] as u32)
}

pub fn read_u32_le(b: &[u8], off: usize) -> (r: u32)
    requires
        off + 4 <= b@.len(),
    ensures
        r == le32(b@[off as int], b@[off + 1], b@[off + 2], b@[off + 3]),
{
    let b0 = b[off];
    let b1 = b[off + 1];
    let b2 = b[off + 2];
    let b3 = b[off + 3];
    ((b3 as u32) << 24) | ((b2 as u32) << 16) | ((b1 as u32) << 8) | (b0 as u32)
}

pub fn read_u64_be(b: &[u8], off: usize) -> (r: u64)
    requires
        off + 8 <= b@.len(),
    ensures
        r == be64(
            b@[off as int], b@[off + 1], b@[off + 2], b@[off + 3],
            b@[off + 4], b@[off + 5], b@[off + 6], b@[off + 7],
        ),
{
    ((b[off] as u64) << 56) | ((b[off + 1] as u64) << 48) | ((b[off + 2] as u64) << 40)
        | ((b[off + 3] as u64) << 32) | ((b[off + 4] as u64) << 24) | ((b[off + 5] as u64) << 16)
        | ((b[off + 6] as u64) << 8) | (b[off + 7] as u64)
}

/// Appends a slice to a byte vector.
pub fn push_bytes(out: &mut Vec<u8>, b: &[u8])
    ensures
        final(out)@ == old(out)@ + b@,
{
    out.extend_from_slice(b);
}

/// Byte-for-byte equality of two slices.
pub fn bytes_eq(a: &[u8], b: &[u8]) -> (r: bool)
    ensures
        r == (a@ == b@),
{
    if a.len() != b.len() {
        proof {
            assert(a@.len() != b@.len());
        }
        return false;
    }
    let mut i: usize = 0;
    while i < a.len()
        invariant
            i <= a@.len(),
            a@.len() == b@.len(),
            forall|j: int| 0 <= j < i ==> a@[j] == b@[j],
        decreases a@.len() - i,
    {
        if a[i] != b[i] {
            return false;
        }
        i += 1;
    }
    proof {
        assert(a@ =~= b@);
    }
    true
}

} // verus!
