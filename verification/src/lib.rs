//! A minimal bump-pointer memory arena.
//!
//! An [`Arena`] owns one fixed-capacity block of OS-backed memory and hands
//! out sequential, non-overlapping byte ranges from it via a single advancing
//! cursor. There is no per-allocation freeing: the arena is reset or
//! destroyed as a whole. The arena is single-owner and single-threaded;
//! callers that need concurrent access must serialize it externally.
//!
//! An arena is logically in one of two states: Active, while the cursor is
//! below the capacity, and Exhausted, once the cursor has reached it.
//! Exhaustion is terminal for a given arena and is reported as an ordinary
//! `None` result, never as a panic.

use vstd::prelude::*;
use vstd::arithmetic::power2::is_pow2;

pub mod align;
pub mod mapping;
pub mod sysgetconf;

use crate::align::{lemma_align_up_props, lemma_pow2_at_least_one, lemma_pow2_mask_is_mod,
    spec_align_up};
use crate::mapping::{map_anon_region, region_bytes, region_len, region_read, region_write};

verus! {

/// The default alignment for structured data: twice the native pointer width
/// in bytes on a 64-bit target.
pub const DEFAULT_ALIGNMENT: usize = 16;

/// One allocation handed out by an [`Arena`]: the byte range
/// `[start, start + len)` of the arena's backing region.
///
/// A view is valid exactly as long as the arena that issued it is alive; the
/// bytes it covers are read and written through the arena, bounds-checked
/// against the view.
#[derive(Clone, Copy, Debug)]
pub struct ArenaView {
    pub start: usize,
    pub len: usize,
}

/// The position one past the last byte a view covers.
pub open spec fn view_end(v: ArenaView) -> int {
    v.start + v.len
}

/// The views tile the byte range `[0, end)` without gap or overlap: each
/// begins exactly where the previous one ended, the first at zero, the last
/// ending at `end`.
pub open spec fn views_tile(vs: Seq<ArenaView>, end: int) -> bool
    decreases vs.len(),
{
    if vs.len() == 0 {
        end == 0
    } else {
        views_tile(vs.drop_last(), vs.last().start as int) && end == view_end(vs.last())
    }
}

/// The sum of the views' lengths.
pub open spec fn total_len(vs: Seq<ArenaView>) -> int
    decreases vs.len(),
{
    if vs.len() == 0 {
        0
    } else {
        total_len(vs.drop_last()) + vs.last().len
    }
}

/// A bump-pointer arena: one OS-mapped region of `capacity` bytes, of which
/// the first `offset` have been handed out.
pub struct Arena {
    /// The backing region, owned exclusively; unmapped when the arena is
    /// dropped.
    pub ptr: memmap2::MmapMut,
    /// How many bytes have been handed out so far; monotonically
    /// non-decreasing.
    pub offset: usize,
    /// The backing region's total usable length, fixed at construction.
    pub capacity: usize,
    /// The views handed out so far, oldest first.
    pub issued: Ghost<Seq<ArenaView>>,
}

impl Arena {
    /// The arena's invariant: the cursor stays within the fixed capacity,
    /// the capacity is the backing region's true length, and the views
    /// issued so far tile the region's prefix up to the cursor.
    pub open spec fn wf(&self) -> bool {
        &&& self.offset <= self.capacity
        &&& self.capacity == region_bytes(self.ptr).len()
        &&& views_tile(self.issued@, self.offset as int)
    }

    /// Wraps an already mapped region as a fresh arena: cursor at zero,
    /// capacity equal to the region's length, nothing issued yet.
    pub fn from_mapping(region: memmap2::MmapMut) -> (a: Arena)
        ensures
            a.wf(),
            a.offset == 0,
            a.capacity == region_bytes(region).len(),
            region_bytes(a.ptr) == region_bytes(region),
            a.issued@ == Seq::<ArenaView>::empty(),
    {
        let capacity = region_len(&region);
        Arena { ptr: region, offset: 0, capacity, issued: Ghost(Seq::empty()) }
    }

    /// Constructs an arena over a fresh anonymous mapping of exactly
    /// `capacity` bytes, zero-filled; returns `None` when the operating
    /// system refuses the mapping.
    pub fn with_capacity(capacity: usize) -> (r: Option<Arena>)
        ensures
            r matches Some(a) ==> (a.wf()
                && a.offset == 0
                && a.capacity == capacity
                && a.issued@ == Seq::<ArenaView>::empty()
                && (forall|i: int| 0 <= i < capacity ==> region_bytes(a.ptr)[i] == 0)),
    {
        match map_anon_region(capacity) {
            Some(region) => Some(Arena::from_mapping(region)),
            None => None,
        }
    }

    /// Constructs an arena whose capacity is the platform's native memory
    /// page size, as the page-size oracle reports it; returns `None` when
    /// the operating system refuses the mapping.
    pub fn new() -> (r: Option<Arena>)
        ensures
            r matches Some(a) ==> (a.wf()
                && a.offset == 0
                && a.capacity >= 1
                && a.issued@ == Seq::<ArenaView>::empty()
                && (forall|i: int| 0 <= i < a.capacity ==> region_bytes(a.ptr)[i] == 0)),
    {
        let page_size = sysgetconf::get_page_size();
        Arena::with_capacity(page_size)
    }

    /// Carves the next `len` bytes out of the arena.
    ///
    /// Succeeds exactly when `len` still fits: the returned view covers
    /// `[offset, offset + len)` and the cursor advances by `len` (a request
    /// for zero bytes trivially succeeds without advancing it). Otherwise
    /// the arena is exhausted for this request: the result is `None` and the
    /// arena is left unchanged.
    pub fn allocate_mem(&mut self, len: usize) -> (r: Option<ArenaView>)
        requires
            old(self).wf(),
        ensures
            final(self).wf(),
            final(self).capacity == old(self).capacity,
            final(self).ptr == old(self).ptr,
            final(self).offset >= old(self).offset,
            old(self).offset + len <= old(self).capacity ==> (r matches Some(v)
                && v.start == old(self).offset
                && v.len == len
                && final(self).offset == old(self).offset + len
                && final(self).issued@ == old(self).issued@.push(v)),
            old(self).offset + len > old(self).capacity ==> (r is None
                && *final(self) == *old(self)),
    {
        if len <= self.capacity - self.offset {
            let view = ArenaView { start: self.offset, len };
            let ghost previously = self.issued@;
            self.offset = self.offset + len;
            self.issued = Ghost(previously.push(view));
            proof {
                assert(self.issued@.drop_last() =~= previously);
            }
            Some(view)
        } else {
            None
        }
    }

    /// Carves the next `len` bytes out of the arena, first rounding the
    /// cursor up to a multiple of `align` (a power of two) so that the
    /// returned view begins on an aligned boundary.
    ///
    /// Alignment is applied to the cursor — the offset relative to the
    /// region's base — not to an absolute address; the two coincide because
    /// the OS-provided mapping is page-aligned, which exceeds every
    /// alignment a consumer ordinarily requests. The padding the rounding
    /// skips is carved out as a view of its own and discarded, so the
    /// issued views still tile the region's prefix.
    ///
    /// Succeeds exactly when `len` bytes still fit above the rounded
    /// cursor; otherwise the result is `None` and the arena is left
    /// unchanged.
    pub fn allocate_aligned(&mut self, len: usize, align: usize) -> (r: Option<ArenaView>)
        requires
            old(self).wf(),
            is_pow2(align as int),
        ensures
            final(self).wf(),
            final(self).capacity == old(self).capacity,
            final(self).ptr == old(self).ptr,
            final(self).offset >= old(self).offset,
            spec_align_up(old(self).offset as int, align as int) + len <= old(self).capacity
                ==> (r matches Some(v)
                && v.start == spec_align_up(old(self).offset as int, align as int)
                && v.start as int % align as int == 0
                && v.len == len
                && final(self).offset == v.start + len
                && final(self).issued@ == old(self).issued@.push(
                ArenaView {
                    start: old(self).offset,
                    len: (spec_align_up(old(self).offset as int, align as int) - old(
                        self,
                    ).offset) as usize,
                },
            ).push(v)),
            spec_align_up(old(self).offset as int, align as int) + len > old(self).capacity ==> (
            r is None && *final(self) == *old(self)),
    {
        proof {
            lemma_pow2_at_least_one(align as int);
            lemma_align_up_props(self.offset as int, align as int);
        }
        let rem: usize = self.offset % align;
        let pad: usize = if rem != 0 {
            align - rem
        } else {
            0
        };
        if pad <= self.capacity - self.offset && len <= (self.capacity - self.offset) - pad {
            let padding = self.allocate_mem(pad);
            proof {
                assert(padding is Some);
            }
            self.allocate_mem(len)
        } else {
            None
        }
    }

    /// Whether the arena has reached its terminal Exhausted state: the
    /// cursor has consumed the whole capacity, so no request for one or
    /// more bytes can succeed any more.
    pub fn is_exhausted(&self) -> (r: bool)
        ensures
            r == (self.offset == self.capacity),
    {
        self.offset == self.capacity
    }

    /// Reads the `i`-th byte of an issued view.
    pub fn read_byte(&self, v: &ArenaView, i: usize) -> (r: u8)
        requires
            self.wf(),
            view_end(*v) <= self.offset,
            i < v.len,
        ensures
            r == region_bytes(self.ptr)[v.start + i],
    {
        region_read(&self.ptr, v.start + i)
    }

    /// Writes the `i`-th byte of an issued view, leaving every byte outside
    /// the view's range unchanged.
    pub fn write_byte(&mut self, v: &ArenaView, i: usize, b: u8)
        requires
            old(self).wf(),
            view_end(*v) <= old(self).offset,
            i < v.len,
        ensures
            final(self).wf(),
            final(self).offset == old(self).offset,
            final(self).capacity == old(self).capacity,
            final(self).issued@ == old(self).issued@,
            region_bytes(final(self).ptr) == region_bytes(old(self).ptr).update(
                v.start + i,
                b,
            ),
    {
        region_write(&mut self.ptr, v.start + i, b);
    }

    /// Rounds `ptr` — an address or an offset, the computation is
    /// shift-invariant — up to the smallest multiple of `alignment` that is
    /// at least `ptr`, by masking with `alignment - 1`; `alignment` must be
    /// a power of two.
    pub fn alignment(ptr: usize, alignment: usize) -> (r: usize)
        requires
            is_pow2(alignment as int),
            ptr + alignment - 1 <= usize::MAX,
        ensures
            r == spec_align_up(ptr as int, alignment as int),
            r >= ptr,
            r % alignment == 0,
            r - ptr < alignment,
            ptr % alignment == 0 ==> r == ptr,
    {
        proof {
            lemma_pow2_at_least_one(alignment as int);
            lemma_pow2_mask_is_mod(ptr, alignment);
            lemma_align_up_props(ptr as int, alignment as int);
        }
        let modulo: usize = ptr & (alignment - 1);
        if modulo != 0 {
            ptr + (alignment - modulo)
        } else {
            ptr
        }
    }
}

/// Law: views that tile `[0, end)` have lengths that sum to exactly `end`.
pub proof fn lemma_tile_total_len(vs: Seq<ArenaView>, end: int)
    requires
        views_tile(vs, end),
    ensures
        total_len(vs) == end,
    decreases vs.len(),
{
    if vs.len() > 0 {
        lemma_tile_total_len(vs.drop_last(), vs.last().start as int);
    }
}

/// Law: in a tiling, every view starts at the sum of the lengths of the
/// views before it — the ranges are `[0, l1)`, `[l1, l1 + l2)`, and so on.
pub proof fn lemma_tile_start(vs: Seq<ArenaView>, end: int, i: int)
    requires
        views_tile(vs, end),
        0 <= i < vs.len(),
    ensures
        vs[i].start == total_len(vs.subrange(0, i)),
    decreases vs.len(),
{
    if i == vs.len() - 1 {
        lemma_tile_total_len(vs.drop_last(), vs.last().start as int);
        assert(vs.subrange(0, i) =~= vs.drop_last());
    } else {
        lemma_tile_start(vs.drop_last(), vs.last().start as int, i);
        assert(vs.drop_last().subrange(0, i) =~= vs.subrange(0, i));
    }
}

/// Law: views in a tiling are pairwise disjoint — of two views, the
/// earlier one ends at or before the point where the later one starts.
pub proof fn lemma_views_disjoint(vs: Seq<ArenaView>, end: int, i: int, j: int)
    requires
        views_tile(vs, end),
        0 <= i < j < vs.len(),
    ensures
        view_end(vs[i]) <= vs[j].start,
{
    lemma_tile_start(vs, end, i);
    lemma_tile_start(vs, end, j);
    lemma_total_len_monotonic(vs, i + 1, j);
    assert(vs.subrange(0, i + 1).drop_last() =~= vs.subrange(0, i));
}

/// Law: the sum of the first `i` lengths never decreases as `i` grows.
pub proof fn lemma_total_len_monotonic(vs: Seq<ArenaView>, i: int, j: int)
    requires
        0 <= i <= j <= vs.len(),
    ensures
        total_len(vs.subrange(0, i)) <= total_len(vs.subrange(0, j)),
    decreases j - i,
{
    if i < j {
        lemma_total_len_monotonic(vs, i, j - 1);
        assert(vs.subrange(0, j).drop_last() =~= vs.subrange(0, j - 1));
    }
}

/// Law: in a well-formed arena the views issued by successful allocations
/// occupy disjoint, contiguous, increasing byte ranges that all lie below
/// the cursor — each starting at the sum of the lengths issued before it —
/// and the cursor equals the sum of all the issued lengths.
pub proof fn lemma_issued_ranges(a: &Arena)
    requires
        a.wf(),
    ensures
        forall|i: int|
            0 <= i < a.issued@.len() ==> (#[trigger] a.issued@[i]).start == total_len(
                a.issued@.subrange(0, i),
            ),
        forall|i: int, j: int|
            0 <= i < j < a.issued@.len() ==> view_end(#[trigger] a.issued@[i])
                <= (#[trigger] a.issued@[j]).start,
        forall|i: int| 0 <= i < a.issued@.len() ==> view_end(#[trigger] a.issued@[i]) <= a.offset,
        total_len(a.issued@) == a.offset,
{
    let vs = a.issued@;
    let end = a.offset as int;
    assert forall|i: int| 0 <= i < vs.len() implies (#[trigger] vs[i]).start == total_len(
        vs.subrange(0, i),
    ) by {
        lemma_tile_start(vs, end, i);
    }
    assert forall|i: int, j: int| 0 <= i < j < vs.len() implies view_end(#[trigger] vs[i])
        <= (#[trigger] vs[j]).start by {
        lemma_views_disjoint(vs, end, i, j);
    }
    assert forall|i: int| 0 <= i < vs.len() implies view_end(#[trigger] vs[i]) <= a.offset by {
        lemma_tile_start(vs, end, i);
        lemma_tile_total_len(vs, end);
        lemma_total_len_monotonic(vs, i + 1, vs.len() as int);
        assert(vs.subrange(0, i + 1).drop_last() =~= vs.subrange(0, i));
        assert(vs.subrange(0, vs.len() as int) =~= vs);
    }
    lemma_tile_total_len(vs, end);
}

} // verus!
