//! Capacity policy of a list: which element types live inline, how far a
//! list grows, and how heap capacities are rounded for lane-wise search.

use crate::allocator::AllocErr;
use vstd::layout::{align_of, size_of};
use vstd::prelude::*;

verus! {

broadcast use vstd::layout::layout_of_primitives;

/// Largest capacity, in elements, that a list will ask storage for.
pub const MAX_CAPACITY: usize = usize::MAX / 2;

/// Bytes a list keeps inline: two machine words.
pub open spec fn inline_bytes() -> nat {
    2 * size_of::<usize>()
}

/// Whether elements of `T` may be held inline: no larger than the inline
/// bytes and aligned no stricter than a machine word.
pub open spec fn spec_can_be_small<T>() -> bool {
    size_of::<T>() <= inline_bytes() && align_of::<T>() <= align_of::<usize>()
}

/// How many elements of `T` fit inline (zero when `T` cannot be inline).
pub open spec fn spec_inline_capacity<T>() -> nat {
    if !spec_can_be_small::<T>() {
        0
    } else if size_of::<T>() == 0 {
        inline_bytes()
    } else {
        inline_bytes() / size_of::<T>()
    }
}

/// Element widths, in bytes, that lane-wise search handles.
pub open spec fn is_simd_width(n: nat) -> bool {
    n == 1 || n == 2 || n == 4 || n == 8
}

pub open spec fn spec_is_simd<T>() -> bool {
    is_simd_width(size_of::<T>())
}

/// Elements per 64-byte lane block (`64 / size_of::<T>()`) for
/// lane-searchable types, else 1.
pub open spec fn spec_simd_stride<T>() -> nat {
    let size = size_of::<T>();
    if size == 1 {
        64
    } else if size == 2 {
        32
    } else if size == 4 {
        16
    } else if size == 8 {
        8
    } else {
        1
    }
}

/// Smallest multiple of `stride` that is at least `n`.
pub open spec fn round_up(n: nat, stride: nat) -> nat
    recommends
        stride > 0,
{
    if n % stride == 0 {
        n
    } else {
        (n + (stride - n % stride)) as nat
    }
}

/// The capacity a heap buffer gets when at least `n` elements are asked for.
pub open spec fn spec_heap_target<T>(n: nat) -> nat {
    round_up(n, spec_simd_stride::<T>())
}

/// Amortised growth from capacity `c`: the ceiling of one and a half
/// times `c + 1`.
pub open spec fn growth_target(c: nat) -> nat {
    (3 * (c + 1) + 1) / 2
}

pub fn can_type_be_small<T>() -> (r: bool)
    ensures
        r == spec_can_be_small::<T>(),
{
    vstd::layout::layout_for_type_is_valid::<usize>();
    let word = core::mem::size_of::<usize>();
    core::mem::size_of::<T>() <= word + word && core::mem::align_of::<T>() <= core::mem::align_of::<
        usize,
    >()
}

pub fn small_buffer_type_capacity<T>() -> (r: usize)
    ensures
        r as nat == spec_inline_capacity::<T>(),
{
    if !can_type_be_small::<T>() {
        return 0;
    }
    let word = core::mem::size_of::<usize>();
    let size = core::mem::size_of::<T>();
    if size == 0 {
        word + word
    } else {
        (word + word) / size
    }
}

pub fn is_simd_type<T>() -> (r: bool)
    ensures
        r == spec_is_simd::<T>(),
{
    let size = core::mem::size_of::<T>();
    size == 1 || size == 2 || size == 4 || size == 8
}

pub fn simd_stride<T>() -> (r: usize)
    ensures
        r as nat == spec_simd_stride::<T>(),
        1 <= r <= 64,
        spec_is_simd::<T>() ==> r * size_of::<T>() == 64,
{
    let size = core::mem::size_of::<T>();
    if size == 1 {
        64
    } else if size == 2 {
        32
    } else if size == 4 {
        16
    } else if size == 8 {
        8
    } else {
        1
    }
}

/// The heap capacity granted for a request of `n` elements, or
/// `OutOfMemory` when that capacity would pass [`MAX_CAPACITY`].
pub fn heap_target<T>(n: usize) -> (r: Result<usize, AllocErr>)
    ensures
        spec_heap_target::<T>(n as nat) <= MAX_CAPACITY ==> r == Ok::<usize, AllocErr>(
            spec_heap_target::<T>(n as nat) as usize,
        ),
        spec_heap_target::<T>(n as nat) > MAX_CAPACITY ==> r == Err::<usize, AllocErr>(
            AllocErr::OutOfMemory,
        ),
        r matches Ok(t) ==> t >= n && (t as nat) % spec_simd_stride::<T>() == 0 && t < n
            + spec_simd_stride::<T>(),
        n + 64 <= MAX_CAPACITY ==> r is Ok,
{
    proof {
        lemma_heap_target::<T>(n as nat);
    }
    let stride = simd_stride::<T>();
    if n > MAX_CAPACITY {
        return Err(AllocErr::OutOfMemory);
    }
    let rem = n % stride;
    if rem == 0 {
        Ok(n)
    } else {
        let t = n + (stride - rem);
        if t > MAX_CAPACITY {
            Err(AllocErr::OutOfMemory)
        } else {
            Ok(t)
        }
    }
}

/// [`growth_target`] on machine integers; `c` is a capacity a list can hold.
pub fn grown_capacity(c: usize) -> (r: usize)
    requires
        c <= MAX_CAPACITY,
    ensures
        r as nat == growth_target(c as nat),
        r > c,
{
    (c + 1) + (c + 2) / 2
}

/// Heap targets are multiples of the stride, and no smaller than asked.
pub proof fn lemma_heap_target<T>(n: nat)
    ensures
        spec_heap_target::<T>(n) >= n,
        spec_heap_target::<T>(n) % spec_simd_stride::<T>() == 0,
        spec_heap_target::<T>(n) < n + spec_simd_stride::<T>(),
        n % spec_simd_stride::<T>() == 0 ==> spec_heap_target::<T>(n) == n,
{
    let s = spec_simd_stride::<T>() as int;
    let m = n as int;
    vstd::arithmetic::div_mod::lemma_fundamental_div_mod(m, s);
    if m % s != 0 {
        assert(m + (s - m % s) == (m / s + 1) * s) by (nonlinear_arith)
            requires
                m == s * (m / s) + m % s,
        ;
        vstd::arithmetic::div_mod::lemma_mod_multiples_basic(m / s + 1, s);
    }
}

} // verus!
