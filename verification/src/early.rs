//! The early-boot allocator: a double-ended bump allocator over one fixed
//! address range.
//!
//! Byte allocations grow forward from `start`; page allocations grow backward
//! from `end`.  The two frontiers `b_pos` and `p_pos` always satisfy
//! `start <= b_pos <= p_pos <= end`.  The byte side keeps only a reference
//! count: when the last outstanding byte allocation is freed, the whole byte
//! region is reclaimed at once.  Pages are never freed.

use vstd::prelude::*;

verus! {

use vstd::arithmetic::power2::is_pow2;
use vstd::arithmetic::div_mod::{
    lemma_add_mod_noop,
    lemma_div_multiples_vanish,
    lemma_fundamental_div_mod,
    lemma_mod_bound,
    lemma_mod_twice,
};
use crate::align::{
    align_down,
    align_up,
    is_power_of_two,
    lemma_align_down_props,
    lemma_align_up_props,
    lemma_is_pow2_pos,
    spec_align_down,
    spec_align_up,
};

/// The recoverable failures of the allocator.
#[derive(Clone, Copy, Debug, PartialEq, Eq, Structural)]
pub enum AllocError {
    /// A frontier would cross the other one, or the operation is
    /// structurally unsupported.
    NoMemory,
    /// A page-allocation alignment request is not a power of two or exceeds
    /// the page granularity.
    InvalidParam,
}

/// The early allocator over a region of `PAGE_SIZE`-granular pages.
pub struct EarlyAllocator<const PAGE_SIZE: usize> {
    /// Inclusive lower bound of the managed region.
    pub start: usize,
    /// Exclusive upper bound of the managed region.
    pub end: usize,
    /// Frontier of the forward-growing byte region.
    pub b_pos: usize,
    /// Frontier of the backward-growing page region.
    pub p_pos: usize,
    /// Number of outstanding byte allocations.
    pub bytes_count: usize,
    /// Number of pages handed out; never decreases.
    pub used_pages: usize,
    /// Number of pages the region holds; fixed at `init`.
    pub total_pages: usize,
}

impl<const PAGE_SIZE: usize> EarlyAllocator<PAGE_SIZE> {
    /// The invariant every operation preserves: the page granularity is a
    /// power of two, the frontiers are ordered within page-aligned bounds,
    /// the byte region is compacted whenever no byte allocation is
    /// outstanding, and the pages handed out all fit between `p_pos` and
    /// `end`.
    pub open spec fn wf(self) -> bool {
        &&& is_pow2(PAGE_SIZE as int)
        &&& self.start <= self.b_pos <= self.p_pos <= self.end
        &&& self.start as int % PAGE_SIZE as int == 0
        &&& self.end as int % PAGE_SIZE as int == 0
        &&& self.bytes_count == 0 ==> self.b_pos == self.start
        &&& self.total_pages == (self.end - self.start) / PAGE_SIZE as int
        &&& self.used_pages * PAGE_SIZE <= self.end - self.p_pos
    }

    /// The address a byte allocation with alignment `align` would return:
    /// the byte frontier rounded up.
    pub open spec fn alloc_addr(self, align: int) -> int {
        spec_align_up(self.b_pos as int, align)
    }

    /// Whether a byte allocation of `size` bytes aligned to `align` fits.
    pub open spec fn alloc_ok(self, size: int, align: int) -> bool {
        self.alloc_addr(align) + size <= self.p_pos
    }

    /// The state after a successful byte allocation.
    pub open spec fn after_alloc(self, size: int, align: int) -> Self {
        Self {
            b_pos: (self.alloc_addr(align) + size) as usize,
            bytes_count: (self.bytes_count + 1) as usize,
            ..self
        }
    }

    /// The state after a byte deallocation: the count drops, and the byte
    /// region is reclaimed as a whole exactly when the count reaches zero.
    pub open spec fn after_dealloc(self) -> Self {
        Self {
            b_pos: if self.bytes_count == 1 {
                self.start
            } else {
                self.b_pos
            },
            bytes_count: (self.bytes_count - 1) as usize,
            ..self
        }
    }

    /// Whether `align_pow2` is an acceptable page alignment: a power of two
    /// no larger than the page granularity.
    pub open spec fn pages_align_ok(align_pow2: int) -> bool {
        is_pow2(align_pow2) && align_pow2 <= PAGE_SIZE as int
    }

    /// The base a page allocation would return: the page frontier moved down
    /// by the requested pages, rounded down to `align_pow2`.
    pub open spec fn pages_addr(self, num_pages: int, align_pow2: int) -> int {
        spec_align_down(self.p_pos - num_pages * (PAGE_SIZE as int), align_pow2)
    }

    /// Whether a page allocation of `num_pages` pages fits above the byte
    /// frontier.
    pub open spec fn pages_ok(self, num_pages: int, align_pow2: int) -> bool {
        self.pages_addr(num_pages, align_pow2) >= self.b_pos
    }

    /// The state after a successful page allocation.
    pub open spec fn after_alloc_pages(self, num_pages: int, align_pow2: int) -> Self {
        Self {
            p_pos: self.pages_addr(num_pages, align_pow2) as usize,
            used_pages: (self.used_pages + num_pages) as usize,
            ..self
        }
    }

    /// Creates a new, empty allocator.  Every field is zero; `init`
    /// establishes the managed region.
    pub fn new() -> (r: Self)
        ensures
            r.start == 0,
            r.end == 0,
            r.b_pos == 0,
            r.p_pos == 0,
            r.bytes_count == 0,
            r.used_pages == 0,
            r.total_pages == 0,
            is_pow2(PAGE_SIZE as int) ==> r.wf(),
    {
        proof {
            if is_pow2(PAGE_SIZE as int) {
                lemma_is_pow2_pos(PAGE_SIZE as int);
                lemma_mod_bound(0, PAGE_SIZE as int);
            }
        }
        Self {
            start: 0,
            end: 0,
            b_pos: 0,
            p_pos: 0,
            bytes_count: 0,
            used_pages: 0,
            total_pages: 0,
        }
    }

    /// Establishes the managed region: `start` is rounded up and
    /// `start + size` rounded down to the page granularity, both frontiers
    /// are reset, and all counters are cleared.  A `size` too small to cover
    /// one aligned page silently yields a zero-capacity allocator.
    pub fn init(&mut self, start: usize, size: usize)
        requires
            is_pow2(PAGE_SIZE as int),
            spec_align_up(start as int, PAGE_SIZE as int) + size <= usize::MAX,
        ensures
            final(self).wf(),
            final(self).start == spec_align_up(start as int, PAGE_SIZE as int),
            final(self).end == final(self).start + spec_align_down(size as int, PAGE_SIZE as int),
            final(self).start as int % PAGE_SIZE as int == 0,
            final(self).end as int % PAGE_SIZE as int == 0,
            final(self).start <= final(self).end,
            final(self).b_pos == final(self).start,
            final(self).p_pos == final(self).end,
            final(self).bytes_count == 0,
            final(self).used_pages == 0,
            final(self).total_pages == size as int / PAGE_SIZE as int,
    {
        proof {
            lemma_is_pow2_pos(PAGE_SIZE as int);
            lemma_align_up_props(start as int, PAGE_SIZE as int);
        }
        let new_start: usize = align_up(start, PAGE_SIZE);
        let new_end: usize = align_down(new_start + size, PAGE_SIZE);
        proof {
            let pg: int = PAGE_SIZE as int;
            lemma_align_down_props(new_start as int + size as int, pg);
            lemma_align_down_props(size as int, pg);
            lemma_add_mod_noop(new_start as int, size as int, pg);
            lemma_mod_bound(size as int, pg);
            lemma_mod_twice(size as int, pg);
            assert(new_end == new_start + spec_align_down(size as int, pg));
            lemma_fundamental_div_mod(size as int, pg);
            lemma_div_multiples_vanish(size as int / pg, pg);
            assert(new_end - new_start == pg * (size as int / pg));
        }
        self.start = new_start;
        self.end = new_end;
        self.b_pos = new_start;
        self.p_pos = new_end;
        self.bytes_count = 0;
        self.used_pages = 0;
        self.total_pages = (new_end - new_start) / PAGE_SIZE;
    }

    /// The allocator manages exactly one region fixed at `init` time, so
    /// adding memory is structurally unsupported: every call fails with
    /// `NoMemory` and changes nothing.
    pub fn add_memory(&mut self, _start: usize, _size: usize) -> (r: Result<(), AllocError>)
        ensures
            *final(self) == *old(self),
            r == Err::<(), AllocError>(AllocError::NoMemory),
    {
        Err(AllocError::NoMemory)
    }

    /// Allocates `size` bytes aligned to `align` from the forward-growing
    /// byte region.  Succeeds exactly when the rounded-up frontier plus
    /// `size` stays at or below the page frontier; a failed call leaves the
    /// allocator unchanged.
    pub fn alloc_bytes(&mut self, size: usize, align: usize) -> (r: Result<usize, AllocError>)
        requires
            old(self).wf(),
            is_pow2(align as int),
            old(self).bytes_count < usize::MAX,
        ensures
            final(self).wf(),
            final(self).start == old(self).start,
            final(self).end == old(self).end,
            final(self).p_pos == old(self).p_pos,
            final(self).used_pages == old(self).used_pages,
            final(self).total_pages == old(self).total_pages,
            old(self).alloc_ok(size as int, align as int) ==> {
                &&& r == Ok::<usize, AllocError>(old(self).alloc_addr(align as int) as usize)
                &&& *final(self) == old(self).after_alloc(size as int, align as int)
            },
            !old(self).alloc_ok(size as int, align as int) ==> {
                &&& r == Err::<usize, AllocError>(AllocError::NoMemory)
                &&& *final(self) == *old(self)
            },
            r matches Ok(a) ==> {
                &&& a as int % align as int == 0
                &&& old(self).start <= a
                &&& old(self).b_pos <= a
                &&& a + size <= final(self).p_pos
                &&& final(self).b_pos == a + size
                &&& final(self).bytes_count == old(self).bytes_count + 1
            },
    {
        proof {
            lemma_is_pow2_pos(align as int);
            lemma_align_up_props(old(self).b_pos as int, align as int);
        }
        let b: usize = self.b_pos;
        let rem: usize = b % align;
        let pad: usize = if rem == 0 {
            0
        } else {
            align - rem
        };
        if pad > usize::MAX - b {
            return Err(AllocError::NoMemory);
        }
        let aligned_pos: usize = b + pad;
        if aligned_pos > self.p_pos || size > self.p_pos - aligned_pos {
            return Err(AllocError::NoMemory);
        }
        self.b_pos = aligned_pos + size;
        self.bytes_count = self.bytes_count + 1;
        Ok(aligned_pos)
    }

    /// Frees one byte allocation.  The arguments play no role: only the
    /// count drops, and the byte region is reclaimed as a whole exactly when
    /// the last outstanding allocation is freed.
    pub fn dealloc(&mut self, _pos: usize, _size: usize, _align: usize)
        requires
            old(self).wf(),
            old(self).bytes_count >= 1,
        ensures
            final(self).wf(),
            *final(self) == old(self).after_dealloc(),
            final(self).bytes_count == old(self).bytes_count - 1,
            final(self).b_pos == if old(self).bytes_count == 1 {
                old(self).start
            } else {
                old(self).b_pos
            },
            final(self).start == old(self).start,
            final(self).end == old(self).end,
            final(self).p_pos == old(self).p_pos,
            final(self).used_pages == old(self).used_pages,
            final(self).total_pages == old(self).total_pages,
    {
        self.bytes_count = self.bytes_count - 1;
        if self.bytes_count == 0 {
            self.b_pos = self.start;
        }
    }

    /// The size of the whole managed region in bytes.
    pub fn total_bytes(&self) -> (r: usize)
        requires
            self.wf(),
        ensures
            r == self.end - self.start,
    {
        self.end - self.start
    }

    /// The size of the byte region handed out so far.
    pub fn used_bytes(&self) -> (r: usize)
        requires
            self.wf(),
        ensures
            r == self.b_pos - self.start,
    {
        self.b_pos - self.start
    }

    /// The free span between the two frontiers.
    pub fn available_bytes(&self) -> (r: usize)
        requires
            self.wf(),
        ensures
            r == self.p_pos - self.b_pos,
    {
        self.p_pos - self.b_pos
    }

    /// Allocates `num_pages` pages aligned to `align_pow2` from the
    /// backward-growing page region.  The alignment must be a power of two
    /// no larger than the page granularity; the allocation succeeds exactly
    /// when the rounded-down candidate base stays at or above the byte
    /// frontier.  A failed call leaves the allocator unchanged.
    pub fn alloc_pages(&mut self, num_pages: usize, align_pow2: usize) -> (r: Result<
        usize,
        AllocError,
    >)
        requires
            old(self).wf(),
        ensures
            final(self).wf(),
            final(self).start == old(self).start,
            final(self).end == old(self).end,
            final(self).b_pos == old(self).b_pos,
            final(self).bytes_count == old(self).bytes_count,
            final(self).total_pages == old(self).total_pages,
            final(self).used_pages >= old(self).used_pages,
            !Self::pages_align_ok(align_pow2 as int) ==> {
                &&& r == Err::<usize, AllocError>(AllocError::InvalidParam)
                &&& *final(self) == *old(self)
            },
            Self::pages_align_ok(align_pow2 as int) && !old(self).pages_ok(
                num_pages as int,
                align_pow2 as int,
            ) ==> {
                &&& r == Err::<usize, AllocError>(AllocError::NoMemory)
                &&& *final(self) == *old(self)
            },
            Self::pages_align_ok(align_pow2 as int) && old(self).pages_ok(
                num_pages as int,
                align_pow2 as int,
            ) ==> {
                &&& r == Ok::<usize, AllocError>(
                    old(self).pages_addr(num_pages as int, align_pow2 as int) as usize,
                )
                &&& *final(self) == old(self).after_alloc_pages(
                    num_pages as int,
                    align_pow2 as int,
                )
            },
            r matches Ok(a) ==> {
                &&& a as int % align_pow2 as int == 0
                &&& old(self).b_pos <= a
                &&& a + num_pages * PAGE_SIZE <= old(self).p_pos
                &&& final(self).p_pos == a
                &&& final(self).used_pages == old(self).used_pages + num_pages
            },
    {
        if !(is_power_of_two(align_pow2) && align_pow2 <= PAGE_SIZE) {
            return Err(AllocError::InvalidParam);
        }
        proof {
            lemma_is_pow2_pos(align_pow2 as int);
            lemma_is_pow2_pos(PAGE_SIZE as int);
        }
        if num_pages > self.p_pos / PAGE_SIZE {
            proof {
                let pg: int = PAGE_SIZE as int;
                let pp: int = self.p_pos as int;
                let q: int = pp / pg;
                lemma_fundamental_div_mod(pp, pg);
                lemma_mod_bound(pp, pg);
                assert(num_pages as int * pg > pp) by (nonlinear_arith)
                    requires
                        num_pages as int >= q + 1,
                        pp == pg * q + pp % pg,
                        0 <= pp % pg < pg,
                        pg >= 1,
                ;
                lemma_align_down_props(pp - num_pages as int * pg, align_pow2 as int);
            }
            return Err(AllocError::NoMemory);
        }
        proof {
            let pg: int = PAGE_SIZE as int;
            let pp: int = self.p_pos as int;
            let q: int = pp / pg;
            lemma_fundamental_div_mod(pp, pg);
            lemma_mod_bound(pp, pg);
            assert(num_pages as int * pg <= pp) by (nonlinear_arith)
                requires
                    num_pages as int <= q,
                    pp == pg * q + pp % pg,
                    0 <= pp % pg,
                    pg >= 1,
            ;
        }
        let size: usize = num_pages * PAGE_SIZE;
        let candidate: usize = align_down(self.p_pos - size, align_pow2);
        proof {
            lemma_align_down_props(self.p_pos as int - size as int, align_pow2 as int);
        }
        if candidate < self.b_pos {
            return Err(AllocError::NoMemory);
        }
        proof {
            let pg: int = PAGE_SIZE as int;
            let u: int = self.used_pages as int;
            let n: int = num_pages as int;
            assert((u + n) * pg == u * pg + n * pg) by (nonlinear_arith);
            assert(u + n <= (u + n) * pg) by (nonlinear_arith)
                requires
                    pg >= 1,
                    u >= 0,
                    n >= 0,
            ;
        }
        self.p_pos = candidate;
        self.used_pages = self.used_pages + num_pages;
        Ok(candidate)
    }

    /// Page allocations are permanent: freeing pages is a no-op whatever the
    /// arguments, and leaves every field of the allocator unchanged.
    pub fn dealloc_pages(&mut self, _pos: usize, _num_pages: usize)
        ensures
            *final(self) == *old(self),
    {
    }

    /// The number of pages the managed region holds.
    pub fn total_pages(&self) -> (r: usize)
        ensures
            r == self.total_pages,
    {
        self.total_pages
    }

    /// The number of pages handed out so far.
    pub fn used_pages(&self) -> (r: usize)
        ensures
            r == self.used_pages,
    {
        self.used_pages
    }

    /// The number of pages still available.
    pub fn available_pages(&self) -> (r: usize)
        requires
            self.wf(),
        ensures
            r == self.total_pages - self.used_pages,
    {
        proof {
            self.lemma_used_le_total();
        }
        self.total_pages - self.used_pages
    }

    /// One successful allocation step: either a byte allocation or a page
    /// allocation that fits, performed on a state whose byte count can still
    /// grow.
    pub open spec fn grow_step(pre: Self, post: Self) -> bool {
        ||| exists|size: int, align: int|
            #![auto]
            {
                &&& is_pow2(align)
                &&& size >= 0
                &&& pre.bytes_count < usize::MAX
                &&& pre.alloc_ok(size, align)
                &&& post == pre.after_alloc(size, align)
            }
        ||| exists|num_pages: int, align_pow2: int|
            #![auto]
            {
                &&& num_pages >= 0
                &&& Self::pages_align_ok(align_pow2)
                &&& pre.pages_ok(num_pages, align_pow2)
                &&& post == pre.after_alloc_pages(num_pages, align_pow2)
            }
    }

    /// `post` is reachable from `pre` by `n` successful allocation steps.
    pub open spec fn grows_to(pre: Self, post: Self, n: nat) -> bool
        decreases n,
    {
        if n == 0 {
            post == pre
        } else {
            exists|mid: Self|
                #![auto]
                Self::grow_step(pre, mid) && Self::grows_to(mid, post, (n - 1) as nat)
        }
    }

    /// A successful byte allocation preserves the invariant, moves the byte
    /// frontier up by at least the request, and returns an aligned address
    /// between the old frontier and the new one.
    proof fn lemma_after_alloc_props(pre: Self, size: int, align: int)
        requires
            pre.wf(),
            align >= 1,
            size >= 0,
            pre.bytes_count < usize::MAX,
            pre.alloc_ok(size, align),
        ensures
            pre.after_alloc(size, align).wf(),
            pre.after_alloc(size, align).b_pos == pre.alloc_addr(align) + size,
            pre.after_alloc(size, align).p_pos == pre.p_pos,
            pre.after_alloc(size, align).start == pre.start,
            pre.after_alloc(size, align).end == pre.end,
            pre.after_alloc(size, align).used_pages == pre.used_pages,
            pre.alloc_addr(align) % align == 0,
            pre.b_pos <= pre.alloc_addr(align),
    {
        lemma_align_up_props(pre.b_pos as int, align);
    }

    /// A successful page allocation preserves the invariant, moves the page
    /// frontier down past the request, and returns an aligned base between
    /// the byte frontier and the old page frontier.
    proof fn lemma_after_alloc_pages_props(pre: Self, num_pages: int, align_pow2: int)
        requires
            pre.wf(),
            num_pages >= 0,
            Self::pages_align_ok(align_pow2),
            pre.pages_ok(num_pages, align_pow2),
        ensures
            pre.after_alloc_pages(num_pages, align_pow2).wf(),
            pre.after_alloc_pages(num_pages, align_pow2).p_pos == pre.pages_addr(
                num_pages,
                align_pow2,
            ),
            pre.after_alloc_pages(num_pages, align_pow2).b_pos == pre.b_pos,
            pre.after_alloc_pages(num_pages, align_pow2).start == pre.start,
            pre.after_alloc_pages(num_pages, align_pow2).end == pre.end,
            pre.after_alloc_pages(num_pages, align_pow2).used_pages == pre.used_pages + num_pages,
            pre.pages_addr(num_pages, align_pow2) % align_pow2 == 0,
            pre.pages_addr(num_pages, align_pow2) + num_pages * PAGE_SIZE <= pre.p_pos,
    {
        let pg: int = PAGE_SIZE as int;
        lemma_is_pow2_pos(align_pow2);
        lemma_is_pow2_pos(pg);
        lemma_align_down_props(pre.p_pos - num_pages * pg, align_pow2);
        assert(num_pages * pg >= 0) by (nonlinear_arith)
            requires
                num_pages >= 0,
                pg >= 1,
        ;
        let u: int = pre.used_pages as int;
        assert((u + num_pages) * pg == u * pg + num_pages * pg) by (nonlinear_arith);
        assert(u + num_pages <= (u + num_pages) * pg) by (nonlinear_arith)
            requires
                pg >= 1,
                u >= 0,
                num_pages >= 0,
        ;
    }

    /// One allocation step keeps the invariant, never moves the byte
    /// frontier down, never moves the page frontier up, and never shrinks
    /// the page count or moves the region bounds.
    pub proof fn lemma_grow_step_props(pre: Self, post: Self)
        requires
            pre.wf(),
            Self::grow_step(pre, post),
        ensures
            post.wf(),
            pre.b_pos <= post.b_pos,
            post.p_pos <= pre.p_pos,
            post.start == pre.start,
            post.end == pre.end,
            post.used_pages >= pre.used_pages,
    {
        if exists|size: int, align: int|
            #![auto]
            {
                &&& is_pow2(align)
                &&& size >= 0
                &&& pre.bytes_count < usize::MAX
                &&& pre.alloc_ok(size, align)
                &&& post == pre.after_alloc(size, align)
            } {
            let (size, align): (int, int) = choose|size: int, align: int|
                #![auto]
                {
                    &&& is_pow2(align)
                    &&& size >= 0
                    &&& pre.bytes_count < usize::MAX
                    &&& pre.alloc_ok(size, align)
                    &&& post == pre.after_alloc(size, align)
                };
            lemma_is_pow2_pos(align);
            Self::lemma_after_alloc_props(pre, size, align);
        } else {
            let (num_pages, align_pow2): (int, int) = choose|num_pages: int, align_pow2: int|
                #![auto]
                {
                    &&& num_pages >= 0
                    &&& Self::pages_align_ok(align_pow2)
                    &&& pre.pages_ok(num_pages, align_pow2)
                    &&& post == pre.after_alloc_pages(num_pages, align_pow2)
                };
            Self::lemma_after_alloc_pages_props(pre, num_pages, align_pow2);
        }
    }

    /// Along any run of successful allocation steps the invariant holds, the
    /// byte frontier only moves up, the page frontier only moves down, and
    /// the region bounds stay fixed.
    pub proof fn lemma_grows_to_props(pre: Self, post: Self, n: nat)
        requires
            pre.wf(),
            Self::grows_to(pre, post, n),
        ensures
            post.wf(),
            pre.b_pos <= post.b_pos,
            post.p_pos <= pre.p_pos,
            post.start == pre.start,
            post.end == pre.end,
            post.used_pages >= pre.used_pages,
        decreases n,
    {
        if n > 0 {
            let mid: Self = choose|mid: Self|
                #![auto]
                Self::grow_step(pre, mid) && Self::grows_to(mid, post, (n - 1) as nat);
            Self::lemma_grow_step_props(pre, mid);
            Self::lemma_grows_to_props(mid, post, (n - 1) as nat);
        }
    }

    /// Law: from a compacted state (no outstanding byte allocation), one
    /// successful byte allocation followed by its deallocation restores the
    /// allocator exactly — the byte frontier returns to `start` and the
    /// count to zero — so the cycle can be repeated any number of times.
    pub proof fn lemma_alloc_dealloc_round_trip(s: Self, size: int, align: int)
        requires
            s.wf(),
            s.bytes_count == 0,
            is_pow2(align),
            size >= 0,
            s.alloc_ok(size, align),
        ensures
            s.after_alloc(size, align).after_dealloc() == s,
            s.after_alloc(size, align).after_dealloc().b_pos == s.start,
            s.after_alloc(size, align).after_dealloc().bytes_count == 0,
    {
    }

    /// Law: a byte range handed out by a successful byte allocation lies
    /// entirely below the base of any page range handed out at that moment
    /// or after any further successful allocations, so byte ranges and page
    /// ranges never overlap when the bytes were allocated first.
    pub proof fn lemma_alloc_then_pages_disjoint(
        s: Self,
        size: int,
        align: int,
        t: Self,
        num_pages: int,
        align_pow2: int,
        n: nat,
    )
        requires
            s.wf(),
            is_pow2(align),
            size >= 0,
            s.bytes_count < usize::MAX,
            s.alloc_ok(size, align),
            Self::grows_to(s.after_alloc(size, align), t, n),
            num_pages >= 0,
            Self::pages_align_ok(align_pow2),
            t.pages_ok(num_pages, align_pow2),
        ensures
            s.alloc_addr(align) + size <= t.pages_addr(num_pages, align_pow2),
    {
        lemma_is_pow2_pos(align);
        Self::lemma_after_alloc_props(s, size, align);
        Self::lemma_grows_to_props(s.after_alloc(size, align), t, n);
    }

    /// Law: a page range handed out by a successful page allocation lies
    /// entirely above the end of any byte range handed out at that moment or
    /// after any further successful allocations, so byte ranges and page
    /// ranges never overlap when the pages were allocated first.
    pub proof fn lemma_pages_then_alloc_disjoint(
        t: Self,
        num_pages: int,
        align_pow2: int,
        s: Self,
        size: int,
        align: int,
        n: nat,
    )
        requires
            t.wf(),
            num_pages >= 0,
            Self::pages_align_ok(align_pow2),
            t.pages_ok(num_pages, align_pow2),
            Self::grows_to(t.after_alloc_pages(num_pages, align_pow2), s, n),
            is_pow2(align),
            size >= 0,
            s.alloc_ok(size, align),
        ensures
            s.alloc_addr(align) + size <= t.pages_addr(num_pages, align_pow2),
    {
        Self::lemma_after_alloc_pages_props(t, num_pages, align_pow2);
        Self::lemma_grows_to_props(t.after_alloc_pages(num_pages, align_pow2), s, n);
    }

    /// The pages handed out never exceed the pages the region holds.
    pub proof fn lemma_used_le_total(self)
        requires
            self.wf(),
        ensures
            self.used_pages <= self.total_pages,
    {
        let pg: int = PAGE_SIZE as int;
        lemma_is_pow2_pos(pg);
        let span: int = self.end - self.start;
        lemma_fundamental_div_mod(span, pg);
        lemma_mod_bound(span, pg);
        assert(self.used_pages as int <= span / pg) by (nonlinear_arith)
            requires
                self.used_pages as int * pg <= span,
                span == pg * (span / pg) + span % pg,
                0 <= span % pg < pg,
                pg >= 1,
        ;
    }
}

} // verus!
