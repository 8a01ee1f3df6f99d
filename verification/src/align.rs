//! Address-alignment arithmetic for the early allocator.
//!
//! Alignments are powers of two; the specifications are stated over the
//! mathematical rounding functions `spec_align_down` / `spec_align_up`.

use vstd::prelude::*;

verus! {

use vstd::arithmetic::power2::is_pow2;
use vstd::arithmetic::div_mod::{
    lemma_div_pos_is_pos,
    lemma_fundamental_div_mod,
    lemma_fundamental_div_mod_converse_mod,
    lemma_mod_bound,
    lemma_mod_multiples_basic,
};
use vstd::arithmetic::mul::lemma_mul_is_commutative;

/// `addr` rounded down to the nearest multiple of `align`.
pub open spec fn spec_align_down(addr: int, align: int) -> int {
    addr - addr % align
}

/// `addr` rounded up to the nearest multiple of `align`.
pub open spec fn spec_align_up(addr: int, align: int) -> int {
    spec_align_down(addr + align - 1, align)
}

/// A power of two is at least one.
pub proof fn lemma_is_pow2_pos(n: int)
    requires
        is_pow2(n),
    ensures
        n >= 1,
{
    reveal(is_pow2);
}

/// Rounding down yields the greatest multiple of `align` that is at most
/// `addr`.
pub proof fn lemma_align_down_props(addr: int, align: int)
    requires
        align >= 1,
    ensures
        spec_align_down(addr, align) % align == 0,
        addr - align < spec_align_down(addr, align) <= addr,
        addr % align == 0 ==> spec_align_down(addr, align) == addr,
        addr >= 0 ==> spec_align_down(addr, align) >= 0,
{
    let q: int = addr / align;
    lemma_mod_bound(addr, align);
    lemma_fundamental_div_mod(addr, align);
    lemma_mod_multiples_basic(q, align);
    lemma_mul_is_commutative(q, align);
    if addr >= 0 {
        lemma_div_pos_is_pos(addr, align);
        assert(align * q >= 0) by (nonlinear_arith)
            requires
                align >= 1,
                q >= 0,
        ;
    }
}

/// Rounding up yields the least multiple of `align` that is at least `addr`,
/// and equals `addr` plus the distance to the next multiple.
pub proof fn lemma_align_up_props(addr: int, align: int)
    requires
        align >= 1,
        addr >= 0,
    ensures
        spec_align_up(addr, align) % align == 0,
        addr <= spec_align_up(addr, align) < addr + align,
        spec_align_up(addr, align) == if addr % align == 0 {
            addr
        } else {
            addr + align - addr % align
        },
{
    lemma_align_down_props(addr + align - 1, align);
    lemma_mod_bound(addr, align);
    lemma_fundamental_div_mod(addr, align);
    let q: int = addr / align;
    let r: int = addr % align;
    if r == 0 {
        assert(addr + align - 1 == q * align + (align - 1)) by (nonlinear_arith)
            requires
                addr == align * q + r,
                r == 0,
        ;
        lemma_fundamental_div_mod_converse_mod(addr + align - 1, align, q, align - 1);
    } else {
        assert(addr + align - 1 == (q + 1) * align + (r - 1)) by (nonlinear_arith)
            requires
                addr == align * q + r,
        ;
        lemma_fundamental_div_mod_converse_mod(addr + align - 1, align, q + 1, r - 1);
    }
}

/// Rounds `addr` down to the nearest multiple of `align`.
pub fn align_down(addr: usize, align: usize) -> (r: usize)
    requires
        is_pow2(align as int),
    ensures
        r == spec_align_down(addr as int, align as int),
{
    proof {
        lemma_is_pow2_pos(align as int);
        lemma_align_down_props(addr as int, align as int);
    }
    addr - addr % align
}

/// Rounds `addr` up to the nearest multiple of `align`; the rounded value
/// must still fit in a `usize`.
pub fn align_up(addr: usize, align: usize) -> (r: usize)
    requires
        is_pow2(align as int),
        spec_align_up(addr as int, align as int) <= usize::MAX,
    ensures
        r == spec_align_up(addr as int, align as int),
{
    proof {
        lemma_is_pow2_pos(align as int);
        lemma_align_up_props(addr as int, align as int);
    }
    let rem: usize = addr % align;
    if rem == 0 {
        addr
    } else {
        addr + (align - rem)
    }
}

/// Whether `addr` is a multiple of `align`.
pub fn is_aligned(addr: usize, align: usize) -> (r: bool)
    requires
        is_pow2(align as int),
    ensures
        r <==> addr as int % align as int == 0,
{
    proof {
        lemma_is_pow2_pos(align as int);
    }
    addr % align == 0
}

/// The branch-free check `x != 0 && x & (x - 1) == 0` detects exactly the
/// powers of two.
pub proof fn lemma_is_pow2_bit_test(x: usize)
    ensures
        (x != 0 && x & ((x - 1) as usize) == 0) <==> is_pow2(x as int),
    decreases x,
{
    reveal(is_pow2);
    if x == 0 {
    } else if x == 1 {
        assert(1usize & 0usize == 0) by (bit_vector);
    } else {
        let h: usize = x / 2;
        lemma_is_pow2_bit_test(h);
        if x % 2 == 1 {
            assert(x & ((x - 1) as usize) != 0) by (bit_vector)
                requires
                    x >= 2,
                    x % 2 == 1,
            ;
        } else {
            assert((x & ((x - 1) as usize) == 0) <==> (h & ((h - 1) as usize) == 0))
                by (bit_vector)
                requires
                    x >= 2,
                    x % 2 == 0,
                    h == x / 2,
            ;
        }
    }
}

/// Whether `x` is a power of two.
pub fn is_power_of_two(x: usize) -> (r: bool)
    ensures
        r == is_pow2(x as int),
{
    proof {
        lemma_is_pow2_bit_test(x);
    }
    x != 0 && (x & (x - 1)) == 0
}

} // verus!
