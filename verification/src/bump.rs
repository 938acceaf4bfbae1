//! The dual-end bump allocator.
//!
//! One contiguous region `[start, end)` is partitioned into a byte zone
//! growing upward from `start`, a page zone growing downward from `end`,
//! and an unclaimed gap between the two soft boundaries `b_end` and
//! `p_end`.  Capacity is granted lazily: `b_end` rises one page at a time,
//! `p_end` falls on demand, and neither boundary ever retreats.

use vstd::prelude::*;
use vstd::arithmetic::div_mod::{
    lemma_fundamental_div_mod, lemma_mod_division_less_than_divisor, lemma_mod_multiples_vanish,
    lemma_small_mod,
};

verus! {

/// Errors surfaced by the allocator.
#[derive(Clone, Copy, PartialEq, Eq, Structural, Debug)]
pub enum AllocError {
    /// The request cannot be satisfied within the remaining unclaimed gap.
    NoMemory,
    /// A page-allocation alignment is not a multiple of the page size.
    InvalidParam,
}

/// Largest multiple of `align` that is at most `pos`.
pub open spec fn align_down_spec(pos: int, align: int) -> int {
    pos - pos % align
}

/// Smallest multiple of `align` that is at least `pos`.
pub open spec fn align_up_spec(pos: int, align: int) -> int {
    align_down_spec(pos + align - 1, align)
}

/// `align_down_spec` really is the aligned position directly below `pos`.
pub proof fn lemma_align_down(pos: int, align: int)
    requires
        0 <= pos,
        1 <= align,
    ensures
        align_down_spec(pos, align) % align == 0,
        0 <= align_down_spec(pos, align) <= pos,
        pos - align < align_down_spec(pos, align),
        pos % align == 0 ==> align_down_spec(pos, align) == pos,
{
    lemma_fundamental_div_mod(pos, align);
    lemma_mod_division_less_than_divisor(pos, align);
    let q = pos / align;
    assert(align_down_spec(pos, align) == align * q);
    if q < 0 {
        assert(align * q <= align * -1) by (nonlinear_arith)
            requires 1 <= align && q <= -1;
        assert(pos < 0);
    }
    assert(align * q % align == 0) by {
        lemma_mod_multiples_vanish(q, 0, align);
    }
}

/// `align_up_spec` really is the aligned position directly above `pos`.
pub proof fn lemma_align_up(pos: int, align: int)
    requires
        0 <= pos,
        1 <= align,
    ensures
        align_up_spec(pos, align) % align == 0,
        pos <= align_up_spec(pos, align) < pos + align,
        pos % align == 0 ==> align_up_spec(pos, align) == pos,
{
    lemma_align_down(pos + align - 1, align);
    if pos % align == 0 {
        lemma_fundamental_div_mod(pos, align);
        let q = pos / align;
        assert(pos == align * q);
        assert((align * q + (align - 1)) % align == (align - 1) % align) by {
            lemma_mod_multiples_vanish(q, align - 1, align);
        }
        assert((align - 1) % align == align - 1) by {
            lemma_small_mod((align - 1) as nat, align as nat);
        }
    }
}

/// Round `pos` down to a multiple of `align`.
pub fn align_down(pos: usize, align: usize) -> (r: usize)
    requires
        1 <= align,
    ensures
        r == align_down_spec(pos as int, align as int),
{
    proof {
        lemma_align_down(pos as int, align as int);
    }
    pos - pos % align
}

/// Round `pos` up to a multiple of `align`.
pub fn align_up(pos: usize, align: usize) -> (r: usize)
    requires
        1 <= align,
        align_up_spec(pos as int, align as int) <= usize::MAX,
    ensures
        r == align_up_spec(pos as int, align as int),
{
    proof {
        lemma_align_up(pos as int, align as int);
    }
    let rem = pos % align;
    if rem == 0 {
        pos
    } else {
        proof {
            lemma_fundamental_div_mod(pos as int, align as int);
            lemma_mod_division_less_than_divisor(pos as int, align as int);
            let a = align as int;
            let q = pos as int / a;
            assert((a * (q + 1) + (rem - 1)) % a == (rem - 1) % a) by {
                lemma_mod_multiples_vanish(q + 1, rem as int - 1, a);
            }
            assert((rem - 1) % a == rem - 1) by {
                lemma_small_mod((rem - 1) as nat, a as nat);
            }
            assert(a * (q + 1) == a * q + a) by (nonlinear_arith);
            assert(pos + a - 1 == a * (q + 1) + (rem - 1));
            assert(align_up_spec(pos as int, a) == pos + a - rem);
        }
        pos + (align - rem)
    }
}

/// The dual-end bump allocator over one contiguous region.
///
/// ```text
/// [ bytes-used | unclaimed gap | pages-used ]
/// start  b_next  b_end    p_end  p_next   end
/// ```
///
/// Byte allocations bump `b_next` upward under the soft ceiling `b_end`;
/// page allocations bump `p_next` downward above the soft floor `p_end`.
/// Neither zone tracks individual allocations: each keeps a reference
/// count, and a zone's frontier rests only when its count drops to zero.
/// The page zone's floor, once claimed, is never given back.
pub struct EarlyAllocator<const PAGE_SIZE: usize> {
    pub start: usize,
    pub end: usize,
    pub b_next: usize,
    pub b_alloc: usize,
    pub b_end: usize,
    pub p_alloc: usize,
    pub p_next: usize,
    pub p_end: usize,
}

impl<const PAGE_SIZE: usize> EarlyAllocator<PAGE_SIZE> {
    /// Well-formedness: the five positions are ordered within the region,
    /// and a zone whose reference count is zero has its frontier at rest.
    pub open spec fn wf(self) -> bool {
        &&& 1 <= PAGE_SIZE
        &&& self.start <= self.b_next
        &&& self.b_next <= self.b_end
        &&& self.b_end <= self.p_end
        &&& self.p_end <= self.p_next
        &&& self.p_next <= self.end
        &&& self.b_alloc == 0 ==> self.b_next == self.start
        &&& self.p_alloc == 0 ==> self.p_next == self.end
    }

    /// Where the next byte allocation with this alignment would start.
    pub open spec fn byte_alloc_start(self, align: usize) -> int {
        align_up_spec(self.b_next as int, align as int)
    }

    /// Where the next byte allocation with this size and alignment would end.
    pub open spec fn byte_alloc_end(self, size: usize, align: usize) -> int {
        self.byte_alloc_start(align) + size
    }

    /// Whether `alloc_bytes(size, align)` succeeds in this state: the candidate
    /// range either fits strictly under the current ceiling, or fits under
    /// the ceiling grown by one page without crossing the page-zone floor.
    pub open spec fn byte_alloc_ok(self, size: usize, align: usize) -> bool {
        let aend = self.byte_alloc_end(size, align);
        ||| aend < self.b_end
        ||| (self.b_end + PAGE_SIZE <= self.p_end && aend <= self.b_end + PAGE_SIZE)
    }

    /// The byte-zone ceiling after `alloc_bytes(size, align)`: grown by exactly one
    /// page when the candidate end reached the old ceiling and the grown
    /// ceiling still stays under the page-zone floor, else unchanged.  The
    /// ceiling keeps the growth even when the call then fails, so a retried
    /// request eventually clears it.
    pub open spec fn byte_end_after(self, size: usize, align: usize) -> int {
        if self.byte_alloc_end(size, align) >= self.b_end && self.b_end + PAGE_SIZE <= self.p_end {
            self.b_end + PAGE_SIZE
        } else {
            self.b_end as int
        }
    }

    /// The state after a successful `alloc_bytes(size, align)`.
    pub open spec fn byte_alloc_post(self, size: usize, align: usize) -> Self {
        Self {
            b_next: self.byte_alloc_end(size, align) as usize,
            b_alloc: (self.b_alloc + 1) as usize,
            b_end: self.byte_end_after(size, align) as usize,
            ..self
        }
    }

    /// Whether a page-allocation alignment (in bytes) is acceptable.
    pub open spec fn page_align_ok(align_pow2: usize) -> bool {
        align_pow2 as int % PAGE_SIZE as int == 0
    }

    /// Where the next page allocation would start: `num_pages` pages below
    /// the page frontier, rounded down to the alignment in page units.
    pub open spec fn page_alloc_start(self, num_pages: usize, align_pow2: usize) -> int {
        align_down_spec(
            self.p_next - num_pages as int * PAGE_SIZE as int,
            align_pow2 as int / PAGE_SIZE as int,
        )
    }

    /// Whether `alloc_pages(num_pages, align_pow2)` succeeds in this state:
    /// the alignment is acceptable and the candidate start does not cross
    /// below the byte-zone ceiling.
    pub open spec fn page_alloc_ok(self, num_pages: usize, align_pow2: usize) -> bool {
        &&& Self::page_align_ok(align_pow2)
        &&& self.b_end <= self.page_alloc_start(num_pages, align_pow2)
    }

    /// The page-zone floor after a successful `alloc_pages`: grown down to
    /// the candidate start when the candidate reached the old floor, else
    /// unchanged.
    pub open spec fn page_end_after(self, num_pages: usize, align_pow2: usize) -> int {
        let astart = self.page_alloc_start(num_pages, align_pow2);
        if astart <= self.p_end {
            astart
        } else {
            self.p_end as int
        }
    }

    /// The state after a successful `alloc_pages(num_pages, align_pow2)`.
    pub open spec fn page_alloc_post(self, num_pages: usize, align_pow2: usize) -> Self {
        Self {
            p_next: self.page_alloc_start(num_pages, align_pow2) as usize,
            p_alloc: (self.p_alloc + 1) as usize,
            p_end: self.page_end_after(num_pages, align_pow2) as usize,
            ..self
        }
    }

    /// A fresh allocator: zeroed and unusable until `init` is called.
    pub fn new() -> (r: Self)
        ensures
            r.start == 0,
            r.end == 0,
            r.b_next == 0,
            r.b_alloc == 0,
            r.b_end == 0,
            r.p_alloc == 0,
            r.p_next == 0,
            r.p_end == 0,
            1 <= PAGE_SIZE ==> r.wf(),
    {
        EarlyAllocator {
            start: 0,
            end: 0,
            b_next: 0,
            b_alloc: 0,
            b_end: 0,
            p_alloc: 0,
            p_next: 0,
            p_end: 0,
        }
    }

    /// Hand the allocator its one region `[start, start + size)`.  Both
    /// frontiers come to rest at their ends and both zones start with zero
    /// granted capacity.
    pub fn init(&mut self, start: usize, size: usize)
        requires
            1 <= PAGE_SIZE,
            start + size <= usize::MAX,
        ensures
            final(self).wf(),
            final(self).start == start,
            final(self).end == start + size,
            final(self).b_next == start,
            final(self).b_end == start,
            final(self).p_next == start + size,
            final(self).p_end == start + size,
            final(self).b_alloc == 0,
            final(self).p_alloc == 0,
    {
        self.start = start;
        self.end = start + size;
        self.b_next = start;
        self.p_next = start + size;
        self.b_end = start;
        self.p_end = start + size;
        self.b_alloc = 0;
        self.p_alloc = 0;
    }

    /// Accepted for interface parity and always a no-op: this allocator
    /// models exactly one contiguous region and silently ignores requests
    /// to extend it.
    pub fn add_memory(&mut self, _start: usize, _size: usize) -> (r: Result<(), AllocError>)
        ensures
            *final(self) == *old(self),
            r == Ok::<(), AllocError>(()),
    {
        Ok(())
    }

    /// Try to raise the byte-zone ceiling by exactly one page; fails without
    /// any change when the raised ceiling would cross the page-zone floor.
    fn increase_bytes(&mut self) -> (r: Result<(), AllocError>)
        requires
            old(self).wf(),
        ensures
            final(self).wf(),
            r is Ok <==> old(self).b_end + PAGE_SIZE <= old(self).p_end,
            r is Ok ==> final(self).b_end == old(self).b_end + PAGE_SIZE,
            r is Err ==> final(self).b_end == old(self).b_end && r == Err::<(), AllocError>(
                AllocError::NoMemory,
            ),
            final(self).start == old(self).start,
            final(self).end == old(self).end,
            final(self).b_next == old(self).b_next,
            final(self).b_alloc == old(self).b_alloc,
            final(self).p_next == old(self).p_next,
            final(self).p_end == old(self).p_end,
            final(self).p_alloc == old(self).p_alloc,
    {
        if self.p_end - self.b_end < PAGE_SIZE {
            Err(AllocError::NoMemory)
        } else {
            self.b_end = self.b_end + PAGE_SIZE;
            Ok(())
        }
    }

    /// Try to lower the page-zone floor to `floor`; fails without any change
    /// when `floor` lies below the byte-zone ceiling.
    fn increase_pages(&mut self, floor: usize) -> (r: Result<(), AllocError>)
        requires
            old(self).wf(),
            floor <= old(self).p_end,
        ensures
            final(self).wf(),
            r is Ok <==> old(self).b_end <= floor,
            r is Ok ==> final(self).p_end == floor,
            r is Err ==> final(self).p_end == old(self).p_end && r == Err::<(), AllocError>(
                AllocError::NoMemory,
            ),
            final(self).start == old(self).start,
            final(self).end == old(self).end,
            final(self).b_next == old(self).b_next,
            final(self).b_alloc == old(self).b_alloc,
            final(self).b_end == old(self).b_end,
            final(self).p_next == old(self).p_next,
            final(self).p_alloc == old(self).p_alloc,
    {
        if floor < self.b_end {
            Err(AllocError::NoMemory)
        } else {
            self.p_end = floor;
            Ok(())
        }
    }

    /// Allocate `size` bytes aligned to `align` out of the byte zone.
    ///
    /// The candidate range starts at the frontier rounded up to `align`.
    /// When its end reaches the current ceiling the ceiling is raised by one
    /// page first; the call fails with `NoMemory` when the raised ceiling
    /// would cross the page-zone floor, or when the candidate still does not
    /// fit under it.  On success the frontier moves to the candidate end.
    pub fn alloc_bytes(&mut self, size: usize, align: usize) -> (r: Result<usize, AllocError>)
        requires
            old(self).wf(),
            1 <= align,
            old(self).byte_alloc_end(size, align) <= usize::MAX,
            old(self).b_alloc < usize::MAX,
        ensures
            final(self).wf(),
            final(self).start == old(self).start,
            final(self).end == old(self).end,
            final(self).p_next == old(self).p_next,
            final(self).p_end == old(self).p_end,
            final(self).p_alloc == old(self).p_alloc,
            final(self).b_end == old(self).byte_end_after(size, align),
            old(self).b_end <= final(self).b_end,
            r is Ok <==> old(self).byte_alloc_ok(size, align),
            r matches Ok(addr) ==> ({
                &&& addr == old(self).byte_alloc_start(align)
                &&& addr as int % align as int == 0
                &&& old(self).b_next <= addr
                &&& addr + size == final(self).b_next
                &&& final(self).b_next <= final(self).b_end
                &&& final(self).b_alloc == old(self).b_alloc + 1
                &&& *final(self) == old(self).byte_alloc_post(size, align)
            }),
            r is Err ==> ({
                &&& r == Err::<usize, AllocError>(AllocError::NoMemory)
                &&& final(self).b_next == old(self).b_next
                &&& final(self).b_alloc == old(self).b_alloc
            }),
    {
        proof {
            lemma_align_up(self.b_next as int, align as int);
        }
        let alloc_start = align_up(self.b_next, align);
        let alloc_end = alloc_start + size;
        if alloc_end >= self.b_end {
            match self.increase_bytes() {
                Err(e) => {
                    return Err(e);
                },
                Ok(()) => {},
            }
            if alloc_end > self.b_end {
                return Err(AllocError::NoMemory);
            }
        }
        self.b_alloc = self.b_alloc + 1;
        self.b_next = alloc_end;
        Ok(alloc_start)
    }

    /// Release one byte allocation.  The address and layout are not tracked;
    /// only the reference count matters, and when it returns to zero the
    /// whole byte zone is free again and the frontier rests at `start`.  The
    /// ceiling is a high-water mark and stays where it is.  A call without a
    /// matching earlier successful `alloc_bytes` is a caller contract violation.
    pub fn dealloc(&mut self, _pos: usize, _size: usize, _align: usize)
        requires
            old(self).wf(),
            1 <= old(self).b_alloc,
        ensures
            final(self).wf(),
            final(self).b_alloc == old(self).b_alloc - 1,
            final(self).b_next == if old(self).b_alloc == 1 {
                old(self).start as int
            } else {
                old(self).b_next as int
            },
            final(self).start == old(self).start,
            final(self).end == old(self).end,
            final(self).b_end == old(self).b_end,
            final(self).p_next == old(self).p_next,
            final(self).p_end == old(self).p_end,
            final(self).p_alloc == old(self).p_alloc,
    {
        self.b_alloc = self.b_alloc - 1;
        if self.b_alloc == 0 {
            self.b_next = self.start;
        }
    }

    /// Total byte capacity granted so far (the ceiling, not the whole gap).
    pub fn total_bytes(&self) -> (r: usize)
        requires
            self.wf(),
        ensures
            r == self.b_end - self.start,
    {
        self.b_end - self.start
    }

    /// Bytes currently in use by the byte zone.
    pub fn used_bytes(&self) -> (r: usize)
        requires
            self.wf(),
        ensures
            r == self.b_next - self.start,
    {
        self.b_next - self.start
    }

    /// Bytes still available under the granted ceiling.
    pub fn available_bytes(&self) -> (r: usize)
        requires
            self.wf(),
        ensures
            r == self.b_end - self.b_next,
    {
        self.b_end - self.b_next
    }

    /// Allocate `num_pages` contiguous pages, aligned to `align_pow2` bytes.
    ///
    /// An alignment that is not a multiple of the page size is rejected with
    /// `InvalidParam` and no state change.  Otherwise the candidate start is
    /// `num_pages` pages below the frontier, rounded down to the alignment
    /// in page units; when it reaches the current floor the floor grows down
    /// to it, and the call fails with `NoMemory`, again with no state
    /// change, when that would cross the byte-zone ceiling.  On success the
    /// frontier moves down to the candidate start.
    pub fn alloc_pages(&mut self, num_pages: usize, align_pow2: usize) -> (r: Result<
        usize,
        AllocError,
    >)
        requires
            old(self).wf(),
            1 <= align_pow2,
            num_pages as int * PAGE_SIZE as int <= old(self).p_next,
            old(self).p_alloc < usize::MAX,
        ensures
            final(self).wf(),
            final(self).start == old(self).start,
            final(self).end == old(self).end,
            final(self).b_next == old(self).b_next,
            final(self).b_end == old(self).b_end,
            final(self).b_alloc == old(self).b_alloc,
            final(self).p_end <= old(self).p_end,
            r is Ok <==> old(self).page_alloc_ok(num_pages, align_pow2),
            !Self::page_align_ok(align_pow2) ==> r == Err::<usize, AllocError>(
                AllocError::InvalidParam,
            ),
            r matches Ok(addr) ==> ({
                &&& addr == old(self).page_alloc_start(num_pages, align_pow2)
                &&& addr == final(self).p_next
                &&& addr + num_pages as int * PAGE_SIZE as int <= old(self).p_next
                &&& final(self).p_end <= addr
                &&& final(self).p_alloc == old(self).p_alloc + 1
                &&& *final(self) == old(self).page_alloc_post(num_pages, align_pow2)
            }),
            r is Err ==> ({
                &&& *final(self) == *old(self)
                &&& (r == Err::<usize, AllocError>(AllocError::NoMemory) || r == Err::<
                    usize,
                    AllocError,
                >(AllocError::InvalidParam))
            }),
    {
        if align_pow2 % PAGE_SIZE != 0 {
            return Err(AllocError::InvalidParam);
        }
        proof {
            if align_pow2 < PAGE_SIZE {
                lemma_small_mod(align_pow2 as nat, PAGE_SIZE as nat);
            }
            vstd::arithmetic::div_mod::lemma_div_non_zero(align_pow2 as int, PAGE_SIZE as int);
        }
        let align_pages = align_pow2 / PAGE_SIZE;
        proof {
            lemma_align_down(
                self.p_next as int - num_pages as int * PAGE_SIZE as int,
                align_pages as int,
            );
        }
        let alloc_start = align_down(self.p_next - num_pages * PAGE_SIZE, align_pages);
        if alloc_start <= self.p_end {
            match self.increase_pages(alloc_start) {
                Err(e) => {
                    return Err(e);
                },
                Ok(()) => {},
            }
        }
        self.p_alloc = self.p_alloc + 1;
        self.p_next = alloc_start;
        Ok(alloc_start)
    }

    /// Release one page allocation.  Pages are never individually reclaimed;
    /// when the reference count returns to zero the frontier rests at `end`
    /// again, while the floor, once claimed, stays where it is.  A call
    /// without a matching earlier successful `alloc_pages` is a caller
    /// contract violation.
    pub fn dealloc_pages(&mut self, _pos: usize, _num_pages: usize)
        requires
            old(self).wf(),
            1 <= old(self).p_alloc,
        ensures
            final(self).wf(),
            final(self).p_alloc == old(self).p_alloc - 1,
            final(self).p_next == if old(self).p_alloc == 1 {
                old(self).end as int
            } else {
                old(self).p_next as int
            },
            final(self).start == old(self).start,
            final(self).end == old(self).end,
            final(self).b_next == old(self).b_next,
            final(self).b_end == old(self).b_end,
            final(self).b_alloc == old(self).b_alloc,
            final(self).p_end == old(self).p_end,
    {
        self.p_alloc = self.p_alloc - 1;
        if self.p_alloc == 0 {
            self.p_next = self.end;
        }
    }

    /// Total page capacity granted so far, in pages.
    pub fn total_pages(&self) -> (r: usize)
        requires
            self.wf(),
        ensures
            r == (self.end - self.p_end) as int / PAGE_SIZE as int,
    {
        (self.end - self.p_end) / PAGE_SIZE
    }

    /// Pages currently in use by the page zone.
    pub fn used_pages(&self) -> (r: usize)
        requires
            self.wf(),
        ensures
            r == (self.end - self.p_next) as int / PAGE_SIZE as int,
    {
        (self.end - self.p_next) / PAGE_SIZE
    }

    /// Pages still available above the granted floor.
    pub fn available_pages(&self) -> (r: usize)
        requires
            self.wf(),
        ensures
            r == (self.p_next - self.p_end) as int / PAGE_SIZE as int,
    {
        (self.p_next - self.p_end) / PAGE_SIZE
    }
}

/// In any well-formed state the byte zone `[start, b_next)` lies entirely
/// below the page zone `[p_next, end)`: the two zones never overlap, and
/// neither crosses the other's frontier.
pub proof fn lemma_zones_disjoint<const PAGE_SIZE: usize>(s: EarlyAllocator<PAGE_SIZE>)
    requires
        s.wf(),
    ensures
        s.b_next <= s.p_next,
{
}

/// Non-overlap of byte allocations: a successful byte allocation in state
/// `s` and a second one in any later well-formed state `t` whose frontier
/// has not moved back (no intervening full-zone reset) return ranges in
/// ascending order that do not overlap.
pub proof fn lemma_byte_allocs_disjoint<const PAGE_SIZE: usize>(
    s: EarlyAllocator<PAGE_SIZE>,
    size1: usize,
    align1: usize,
    t: EarlyAllocator<PAGE_SIZE>,
    size2: usize,
    align2: usize,
)
    requires
        s.wf(),
        t.wf(),
        1 <= align1,
        1 <= align2,
        s.byte_alloc_ok(size1, align1),
        s.byte_alloc_end(size1, align1) <= usize::MAX,
        s.byte_alloc_post(size1, align1).b_next <= t.b_next,
    ensures
        s.byte_alloc_start(align1) + size1 <= t.byte_alloc_start(align2),
{
    lemma_align_up(t.b_next as int, align2 as int);
}

/// Non-overlap of page allocations: a successful page allocation in state
/// `s` and a second one in any later well-formed state `t` whose frontier
/// has not moved back up (no intervening full-zone reset) return ranges in
/// descending order that do not overlap.
pub proof fn lemma_page_allocs_disjoint<const PAGE_SIZE: usize>(
    s: EarlyAllocator<PAGE_SIZE>,
    num1: usize,
    align1: usize,
    t: EarlyAllocator<PAGE_SIZE>,
    num2: usize,
    align2: usize,
)
    requires
        s.wf(),
        t.wf(),
        1 <= align1,
        1 <= align2,
        num1 as int * PAGE_SIZE as int <= s.p_next,
        num2 as int * PAGE_SIZE as int <= t.p_next,
        s.page_alloc_ok(num1, align1),
        t.page_alloc_ok(num2, align2),
        t.p_next <= s.page_alloc_post(num1, align1).p_next,
    ensures
        t.page_alloc_start(num2, align2) + num2 as int * PAGE_SIZE as int <= s.page_alloc_start(
            num1,
            align1,
        ),
{
    if align1 < PAGE_SIZE {
        lemma_small_mod(align1 as nat, PAGE_SIZE as nat);
    }
    if align2 < PAGE_SIZE {
        lemma_small_mod(align2 as nat, PAGE_SIZE as nat);
    }
    vstd::arithmetic::div_mod::lemma_div_non_zero(align1 as int, PAGE_SIZE as int);
    vstd::arithmetic::div_mod::lemma_div_non_zero(align2 as int, PAGE_SIZE as int);
    lemma_align_down(
        s.p_next as int - num1 as int * PAGE_SIZE as int,
        align1 as int / PAGE_SIZE as int,
    );
    lemma_align_down(
        t.p_next as int - num2 as int * PAGE_SIZE as int,
        align2 as int / PAGE_SIZE as int,
    );
}

/// Non-overlap across the gap, byte side first: a successful byte
/// allocation in state `s` ends at or below the byte ceiling it leaves
/// behind, so it cannot reach a page allocation made in any later state `t`
/// whose ceiling has not moved down.
pub proof fn lemma_byte_then_page_disjoint<const PAGE_SIZE: usize>(
    s: EarlyAllocator<PAGE_SIZE>,
    size: usize,
    align: usize,
    t: EarlyAllocator<PAGE_SIZE>,
    num_pages: usize,
    align_pow2: usize,
)
    requires
        s.wf(),
        t.wf(),
        1 <= align,
        s.byte_alloc_ok(size, align),
        s.byte_alloc_end(size, align) <= usize::MAX,
        s.byte_alloc_post(size, align).b_end <= t.b_end,
        t.page_alloc_ok(num_pages, align_pow2),
    ensures
        s.byte_alloc_start(align) + size <= t.page_alloc_start(num_pages, align_pow2),
{
}

/// Non-overlap across the gap, page side first: a successful page
/// allocation in state `s` leaves the floor at or below its start, so a
/// byte allocation made in any later state `t` whose floor has not moved
/// up cannot reach it.
pub proof fn lemma_page_then_byte_disjoint<const PAGE_SIZE: usize>(
    s: EarlyAllocator<PAGE_SIZE>,
    num_pages: usize,
    align_pow2: usize,
    t: EarlyAllocator<PAGE_SIZE>,
    size: usize,
    align: usize,
)
    requires
        s.wf(),
        t.wf(),
        1 <= align,
        num_pages as int * PAGE_SIZE as int <= s.p_next,
        s.page_alloc_ok(num_pages, align_pow2),
        t.p_end <= s.page_alloc_post(num_pages, align_pow2).p_end,
        t.byte_alloc_ok(size, align),
    ensures
        t.byte_alloc_end(size, align) <= s.page_alloc_start(num_pages, align_pow2),
{
}

/// Zero-count reset, byte side: with no byte allocation outstanding and a
/// region start that meets the requested alignment, the next byte
/// allocation is placed exactly at the region's original start.
pub proof fn lemma_byte_reset_returns_start<const PAGE_SIZE: usize>(
    s: EarlyAllocator<PAGE_SIZE>,
    align: usize,
)
    requires
        s.wf(),
        s.b_alloc == 0,
        1 <= align,
        s.start as int % align as int == 0,
    ensures
        s.byte_alloc_start(align) == s.start,
{
    lemma_align_up(s.start as int, align as int);
}

/// Zero-count reset, page side: with no page allocation outstanding and a
/// count and alignment under which no rounding occurs, the next page
/// allocation's range ends exactly at the region's original end.
pub proof fn lemma_page_reset_returns_end<const PAGE_SIZE: usize>(
    s: EarlyAllocator<PAGE_SIZE>,
    num_pages: usize,
    align_pow2: usize,
)
    requires
        s.wf(),
        s.p_alloc == 0,
        EarlyAllocator::<PAGE_SIZE>::page_align_ok(align_pow2),
        PAGE_SIZE <= align_pow2,
        num_pages as int * PAGE_SIZE as int <= s.end,
        (s.end - num_pages as int * PAGE_SIZE as int) % (align_pow2 as int / PAGE_SIZE as int)
            == 0,
    ensures
        s.page_alloc_start(num_pages, align_pow2) + num_pages as int * PAGE_SIZE as int == s.end,
{
    vstd::arithmetic::div_mod::lemma_div_non_zero(align_pow2 as int, PAGE_SIZE as int);
    lemma_align_down(
        s.end - num_pages as int * PAGE_SIZE as int,
        align_pow2 as int / PAGE_SIZE as int,
    );
}

/// Exhaustion, byte side: once the unclaimed gap is narrower than one page,
/// a byte request that needs the ceiling to move fails with `NoMemory` (and
/// by the contract of `alloc_bytes`, a failing call moves neither frontier).
pub proof fn lemma_byte_exhaustion<const PAGE_SIZE: usize>(
    s: EarlyAllocator<PAGE_SIZE>,
    size: usize,
    align: usize,
)
    requires
        s.wf(),
        s.p_end - s.b_end < PAGE_SIZE,
        s.byte_alloc_end(size, align) >= s.b_end,
    ensures
        !s.byte_alloc_ok(size, align),
{
}

/// Exhaustion, page side: once the candidate start of a page request falls
/// below the byte-zone ceiling, the request fails with `NoMemory` (and by
/// the contract of `alloc_pages`, a failing call changes nothing).
pub proof fn lemma_page_exhaustion<const PAGE_SIZE: usize>(
    s: EarlyAllocator<PAGE_SIZE>,
    num_pages: usize,
    align_pow2: usize,
)
    requires
        s.wf(),
        s.page_alloc_start(num_pages, align_pow2) < s.b_end,
    ensures
        !s.page_alloc_ok(num_pages, align_pow2),
{
}

} // verus!
