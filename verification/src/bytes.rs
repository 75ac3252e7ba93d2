//! Little-endian integers in byte sequences.

use vstd::prelude::*;

verus! {

/// The little-endian `u16` at `at`.
pub open spec fn get16(s: Seq<u8>, at: int) -> u16 {
    (s[at] as u16 | ((s[at + 1] as u16) << 8u16)) as u16
}

/// The little-endian `u32` at `at`.
pub open spec fn get32(s: Seq<u8>, at: int) -> u32 {
    (s[at] as u32 | ((s[at + 1] as u32) << 8u32) | ((s[at + 2] as u32) << 16u32) | ((s[at
        + 3] as u32) << 24u32)) as u32
}

/// `s` with the little-endian bytes of `w` at `at`.
pub open spec fn put16(s: Seq<u8>, at: int, w: u16) -> Seq<u8> {
    s.update(at, (w & 0xFF) as u8).update(at + 1, (w >> 8u16) as u8)
}

/// `s` with the little-endian bytes of `w` at `at`.
pub open spec fn put32(s: Seq<u8>, at: int, w: u32) -> Seq<u8> {
    s.update(at, (w & 0xFF) as u8).update(at + 1, ((w >> 8u32) & 0xFF) as u8).update(
        at + 2,
        ((w >> 16u32) & 0xFF) as u8,
    ).update(at + 3, (w >> 24u32) as u8)
}

/// The little-endian `u64` at `at`.
pub open spec fn get64(s: Seq<u8>, at: int) -> u64 {
    (get32(s, at) as u64 | ((get32(s, at + 4) as u64) << 32u64)) as u64
}

/// Writes `w` little-endian at `at`.
pub fn write16(out: &mut [u8], at: usize, w: u16)
    requires
        at + 2 <= old(out)@.len(),
    ensures
        final(out)@ == put16(old(out)@, at as int, w),
        final(out)@.len() == old(out)@.len(),
        get16(final(out)@, at as int) == w,
        forall|j: int|
            0 <= j < old(out)@.len() && !(at <= j < at + 2) ==> #[trigger] final(out)@[j] == old(
                out,
            )@[j],
{
    out[at] = (w & 0xFF) as u8;
    out[at + 1] = (w >> 8u16) as u8;
    proof {
        lemma_get_put16(old(out)@, at as int, w);
    }
}

/// Writes `w` little-endian at `at`.
pub fn write32(out: &mut [u8], at: usize, w: u32)
    requires
        at + 4 <= old(out)@.len(),
    ensures
        final(out)@ == put32(old(out)@, at as int, w),
        final(out)@.len() == old(out)@.len(),
        get32(final(out)@, at as int) == w,
        forall|j: int|
            0 <= j < old(out)@.len() && !(at <= j < at + 4) ==> #[trigger] final(out)@[j] == old(
                out,
            )@[j],
{
    out[at] = (w & 0xFF) as u8;
    out[at + 1] = ((w >> 8u32) & 0xFF) as u8;
    out[at + 2] = ((w >> 16u32) & 0xFF) as u8;
    out[at + 3] = (w >> 24u32) as u8;
    proof {
        lemma_get_put32(old(out)@, at as int, w);
    }
}

/// Reads the little-endian `u16` at `at`.
pub fn read16(bytes: &[u8], at: usize) -> (v: u16)
    requires
        at + 2 <= bytes@.len(),
    ensures
        v == get16(bytes@, at as int),
{
    (bytes[at] as u16 | ((bytes[at + 1] as u16) << 8u16)) as u16
}

/// Reads the little-endian `u32` at `at`.
pub fn read32(bytes: &[u8], at: usize) -> (v: u32)
    requires
        at + 4 <= bytes@.len(),
    ensures
        v == get32(bytes@, at as int),
{
    bytes[at] as u32 | ((bytes[at + 1] as u32) << 8u32) | ((bytes[at + 2] as u32) << 16u32) | ((
    bytes[at + 3] as u32) << 24u32)
}

/// The low and high bytes of `w` make `w` again.
pub proof fn lemma_split16(w: u16)
    ensures
        ((((w & 0xFF) as u8) as u16) | (((((w >> 8u16) as u8) as u16) << 8u16) as u16)) as u16 == w,
{
    assert(((((w & 0xFF) as u8) as u16) | (((((w >> 8u16) as u8) as u16) << 8u16) as u16)) as u16
        == w) by (bit_vector);
}

/// Reading back what [`put16`] wrote gives the value written.
pub proof fn lemma_get_put16(s: Seq<u8>, at: int, w: u16)
    requires
        0 <= at,
        at + 2 <= s.len(),
    ensures
        get16(put16(s, at, w), at) == w,
        put16(s, at, w).len() == s.len(),
{
    lemma_split16(w);
}

/// The four bytes of `w`, low first, make `w` again.
pub proof fn lemma_split32(w: u32)
    ensures
        (((((w & 0xFF) as u8) as u32) | (((((w >> 8u32) & 0xFF) as u8) as u32) << 8u32) | (((((w
            >> 16u32) & 0xFF) as u8) as u32) << 16u32) | ((((w >> 24u32) as u8) as u32)
            << 24u32)) as u32) == w,
{
    assert((((((w & 0xFF) as u8) as u32) | (((((w >> 8u32) & 0xFF) as u8) as u32) << 8u32) | (((((
    w >> 16u32) & 0xFF) as u8) as u32) << 16u32) | ((((w >> 24u32) as u8) as u32) << 24u32)) as u32)
        == w) by (bit_vector);
}

/// The two bytes of `w`, low first.
pub open spec fn bytes16(w: u16) -> Seq<u8> {
    seq![(w & 0xFF) as u8, (w >> 8u16) as u8]
}

/// The four bytes of `w`, low first.
pub open spec fn bytes32(w: u32) -> Seq<u8> {
    seq![(w & 0xFF) as u8, ((w >> 8u32) & 0xFF) as u8, ((w >> 16u32) & 0xFF) as u8, (w >> 24u32) as u8]
}

/// Reading back what [`put32`] wrote gives the value written.
pub proof fn lemma_get_put32(s: Seq<u8>, at: int, w: u32)
    requires
        0 <= at,
        at + 4 <= s.len(),
    ensures
        get32(put32(s, at, w), at) == w,
        put32(s, at, w).len() == s.len(),
{
    lemma_split32(w);
}

/// Writes `w` little-endian at `at`.
pub fn write64(out: &mut [u8], at: usize, w: u64)
    requires
        at + 8 <= old(out)@.len(),
    ensures
        final(out)@.len() == old(out)@.len(),
        get64(final(out)@, at as int) == w,
        forall|j: int|
            0 <= j < old(out)@.len() && !(at <= j < at + 8) ==> #[trigger] final(out)@[j] == old(
                out,
            )@[j],
{
    let len = out.len();
    assert(at + 8 <= len);
    let lo = w as u32;
    let hi = (w >> 32u64) as u32;
    write32(out, at, lo);
    let ghost mid = out@;
    write32(out, at + 4, hi);
    assert(get32(out@, at as int) == get32(mid, at as int));
    assert((lo as u64 | ((hi as u64) << 32u64)) as u64 == w) by (bit_vector)
        requires
            lo == w as u32,
            hi == (w >> 32u64) as u32,
    ;
}

} // verus!
