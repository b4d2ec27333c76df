//! The arena's backing store: an anonymous memory mapping obtained from the
//! operating system through `memmap2`.
//!
//! The mapped region is modelled as a sequence of bytes, `region_bytes`.
//! Everything the library states about a mapping goes through that model and
//! the thin wrappers below; the rest of the crate is verified against their
//! contracts.

use vstd::prelude::*;

verus! {

#[verifier::external_type_specification]
#[verifier::external_body]
pub struct ExMmapMut(memmap2::MmapMut);

/// The bytes held by a mapped region, in address order.
pub uninterp spec fn region_bytes(m: memmap2::MmapMut) -> Seq<u8>;

/// Relies on memmap2::MmapMut::map_anon: on success it returns an anonymous,
/// read-write mapping of exactly `len` bytes, which the operating system
/// zero-fills; it returns an error when the underlying system call fails or
/// when `len` exceeds `isize::MAX`.
#[verifier::external_body]
pub(crate) fn map_anon_region(len: usize) -> (r: Option<memmap2::MmapMut>)
    ensures
        r matches Some(m) ==> region_bytes(m).len() == len,
        r matches Some(m) ==> forall|i: int| 0 <= i < len ==> region_bytes(m)[i] == 0,
{
    memmap2::MmapMut::map_anon(len).ok()
}

/// Relies on memmap2::MmapMut's Deref impl: the mapping derefs to the mapped
/// bytes as a slice, so `len` is the mapped region's length.
#[verifier::external_body]
pub(crate) fn region_len(m: &memmap2::MmapMut) -> (r: usize)
    ensures
        r == region_bytes(*m).len(),
{
    m.len()
}

/// Relies on memmap2::MmapMut's Deref impl: the mapping derefs to the mapped
/// bytes, so indexing reads the byte at that position.
#[verifier::external_body]
pub(crate) fn region_read(m: &memmap2::MmapMut, i: usize) -> (r: u8)
    requires
        i < region_bytes(*m).len(),
    ensures
        r == region_bytes(*m)[i as int],
{
    m[i]
}

/// Relies on memmap2::MmapMut's DerefMut impl: the mapping derefs to the
/// mapped bytes, so writing through an index stores the byte at that position
/// and leaves every other byte unchanged.
#[verifier::external_body]
pub(crate) fn region_write(m: &mut memmap2::MmapMut, i: usize, b: u8)
    requires
        i < region_bytes(*old(m)).len(),
    ensures
        region_bytes(*final(m)) == region_bytes(*old(m)).update(i as int, b),
{
    m[i] = b;
}

} // verus!
