//! Lane-wise equality search: the kernel that sweeps a buffer in blocks of
//! lanes, builds an equality mask per block and takes its lowest set bit.

use crate::layout::is_simd_width;
use vstd::layout::size_of;
use vstd::prelude::*;
use vstd::std_specs::cmp::PartialEqSpec;

verus! {

broadcast use vstd::std_specs::bits::axiom_u64_trailing_zeros;

/// Index of the first element of `s` that is `==` to `x`.
pub open spec fn first_index<T: PartialEq>(s: Seq<T>, x: T) -> Option<int>
    decreases s.len(),
{
    if s.len() == 0 {
        None
    } else {
        match first_index(s.drop_last(), x) {
            Some(i) => Some(i),
            None => if s.last().eq_spec(&x) {
                Some(s.len() - 1)
            } else {
                None
            },
        }
    }
}

/// An index returned by an executable search, read as a spec index.
pub open spec fn opt_index(r: Option<usize>) -> Option<int> {
    match r {
        Some(i) => Some(i as int),
        None => None,
    }
}

/// The lane-wise sweep from `offset` on: the blocks `[offset, offset +
/// stride)`, clipped to `s`, are searched in turn and the first block
/// holding a match gives its lowest matching lane.
pub open spec fn lane_scan<T: PartialEq>(s: Seq<T>, x: T, stride: nat, offset: nat) -> Option<int>
    decreases s.len() - offset,
{
    if stride == 0 || offset >= s.len() {
        None
    } else {
        let end = if offset + stride <= s.len() {
            offset + stride
        } else {
            s.len() as nat
        };
        match first_index(s.subrange(offset as int, end as int), x) {
            Some(k) => Some(offset + k),
            None => lane_scan(s, x, stride, end),
        }
    }
}

/// What [`first_index`] is: the position of a match with none before it,
/// or nothing when no element matches.
pub proof fn lemma_first_index<T: PartialEq>(s: Seq<T>, x: T)
    ensures
        match first_index(s, x) {
            Some(i) => 0 <= i < s.len() && s[i].eq_spec(&x) && forall|j: int|
                0 <= j < i ==> !(#[trigger] s[j]).eq_spec(&x),
            None => forall|j: int| 0 <= j < s.len() ==> !(#[trigger] s[j]).eq_spec(&x),
        },
    decreases s.len(),
{
    if s.len() > 0 {
        lemma_first_index(s.drop_last(), x);
        assert forall|j: int| 0 <= j < s.len() - 1 implies s[j] == s.drop_last()[j] by {}
    }
}

/// A match at `i` with none before it is the first index.
pub proof fn lemma_first_index_at<T: PartialEq>(s: Seq<T>, x: T, i: int)
    requires
        0 <= i < s.len(),
        s[i].eq_spec(&x),
        forall|j: int| 0 <= j < i ==> !(#[trigger] s[j]).eq_spec(&x),
    ensures
        first_index(s, x) == Some(i),
{
    lemma_first_index(s, x);
}

/// With no match anywhere there is no first index.
pub proof fn lemma_first_index_none<T: PartialEq>(s: Seq<T>, x: T)
    requires
        forall|j: int| 0 <= j < s.len() ==> !(#[trigger] s[j]).eq_spec(&x),
    ensures
        first_index(s, x) is None,
{
    lemma_first_index(s, x);
}

/// The lane-wise sweep finds what a plain front-to-back scan finds, for
/// every block width: the two searches agree on every input.
pub proof fn lemma_lane_scan_is_first_index<T: PartialEq>(s: Seq<T>, x: T, stride: nat)
    requires
        stride > 0,
    ensures
        lane_scan(s, x, stride, 0) == first_index(s, x),
{
    lemma_lane_scan_from(s, x, stride, 0);
}

proof fn lemma_lane_scan_from<T: PartialEq>(s: Seq<T>, x: T, stride: nat, offset: nat)
    requires
        stride > 0,
        forall|j: int| 0 <= j < offset && j < s.len() ==> !(#[trigger] s[j]).eq_spec(&x),
    ensures
        lane_scan(s, x, stride, offset) == first_index(s, x),
    decreases s.len() - offset,
{
    if offset >= s.len() {
        lemma_first_index_none(s, x);
    } else {
        let end = if offset + stride <= s.len() {
            offset + stride
        } else {
            s.len() as nat
        };
        let chunk = s.subrange(offset as int, end as int);
        lemma_first_index(chunk, x);
        match first_index(chunk, x) {
            Some(k) => {
                assert(chunk[k] == s[offset + k]);
                assert forall|j: int| 0 <= j < offset + k implies !(#[trigger] s[j]).eq_spec(&x) by {
                    if j >= offset {
                        assert(chunk[j - offset] == s[j]);
                    }
                }
                lemma_first_index_at(s, x, offset + k);
            },
            None => {
                assert forall|j: int| 0 <= j < end implies !(#[trigger] s[j]).eq_spec(&x) by {
                    if j >= offset {
                        assert(chunk[j - offset] == s[j]);
                    }
                }
                lemma_lane_scan_from(s, x, stride, end);
            },
        }
    }
}

/// Element types the lane-wise search accepts: one, two, four or eight
/// bytes wide, with an `==` that follows its specification.
pub trait SimdElement: PartialEq + Sized {
    proof fn lemma_simd_element()
        ensures
            is_simd_width(size_of::<Self>()),
            Self::obeys_eq_spec(),
    ;
}

impl SimdElement for u8 {
    proof fn lemma_simd_element() {
    }
}

impl SimdElement for i8 {
    proof fn lemma_simd_element() {
    }
}

impl SimdElement for u16 {
    proof fn lemma_simd_element() {
    }
}

impl SimdElement for i16 {
    proof fn lemma_simd_element() {
    }
}

impl SimdElement for u32 {
    proof fn lemma_simd_element() {
    }
}

impl SimdElement for i32 {
    proof fn lemma_simd_element() {
    }
}

impl SimdElement for u64 {
    proof fn lemma_simd_element() {
    }
}

impl SimdElement for i64 {
    proof fn lemma_simd_element() {
    }
}

/// The two kernel families: 512-bit and 256-bit lanes.
#[derive(Debug, Clone, Copy, PartialEq, Eq, Structural)]
pub enum SimdKernel {
    Lanes512,
    Lanes256,
}

impl SimdKernel {
    pub open spec fn spec_lane_bytes(self) -> nat {
        match self {
            SimdKernel::Lanes512 => 64,
            SimdKernel::Lanes256 => 32,
        }
    }

    /// Bytes in one lane vector.
    pub fn lane_bytes(&self) -> (r: usize)
        ensures
            r as nat == self.spec_lane_bytes(),
    {
        match self {
            SimdKernel::Lanes512 => 64,
            SimdKernel::Lanes256 => 32,
        }
    }

    /// Elements of `T` compared per step.
    pub open spec fn spec_lanes<T>(self) -> nat {
        self.spec_lane_bytes() / size_of::<T>()
    }

    pub fn lanes<T: SimdElement>(&self) -> (r: usize)
        ensures
            r as nat == self.spec_lanes::<T>(),
            4 <= r <= 64,
    {
        proof {
            T::lemma_simd_element();
        }
        let size = core::mem::size_of::<T>();
        self.lane_bytes() / size
    }
}

/// The kernel family for a processor: 512-bit lanes where available, else
/// 256-bit lanes, else none.
pub fn select_kernel(has_avx512: bool, has_avx2: bool) -> (r: Option<SimdKernel>)
    ensures
        r == (if has_avx512 {
            Some(SimdKernel::Lanes512)
        } else if has_avx2 {
            Some(SimdKernel::Lanes256)
        } else {
            None::<SimdKernel>
        }),
{
    if has_avx512 {
        Some(SimdKernel::Lanes512)
    } else if has_avx2 {
        Some(SimdKernel::Lanes256)
    } else {
        None
    }
}

proof fn lemma_bit_set(m: u64, k: u64, j: u64)
    requires
        k < 64,
        j < 64,
    ensures
        ((m | (1u64 << k)) >> j) & 1u64 == 1u64 <==> (j == k || (m >> j) & 1u64 == 1u64),
{
    assert(((m | (1u64 << k)) >> j) & 1u64 == 1u64 <==> (j == k || (m >> j) & 1u64 == 1u64))
        by (bit_vector)
        requires
            k < 64,
            j < 64,
    ;
}

proof fn lemma_zero_bits(j: u64)
    ensures
        (0u64 >> j) & 1u64 == 0u64,
{
    assert((0u64 >> j) & 1u64 == 0u64) by (bit_vector);
}

/// The equality mask of the block `buffer[start..end]` against `needle`:
/// bit `j` is set exactly when lane `j` matches.
pub fn lane_mask<T: SimdElement>(buffer: &[T], start: usize, end: usize, needle: &T) -> (m: u64)
    requires
        start < end <= buffer@.len(),
        end - start <= 64,
    ensures
        forall|j: u64|
            j < 64 ==> ((#[trigger] ((m >> j) & 1u64) == 1u64) <==> (j < end - start
                && buffer@[start + j].eq_spec(needle))),
{
    proof {
        T::lemma_simd_element();
    }
    let mut mask: u64 = 0;
    let mut k: usize = 0;
    assert forall|j: u64| j < 64 implies #[trigger] ((mask >> j) & 1u64) != 1u64 by {
        lemma_zero_bits(j);
    }
    while k < end - start
        invariant
            start < end <= buffer@.len(),
            end - start <= 64,
            k <= end - start,
            T::obeys_eq_spec(),
            forall|j: u64|
                j < 64 ==> ((#[trigger] ((mask >> j) & 1u64) == 1u64) <==> (j < k
                    && buffer@[start + j].eq_spec(needle))),
        decreases end - start - k,
    {
        if buffer[start + k] == *needle {
            let bit: u64 = 1u64 << (k as u64);
            proof {
                assert forall|j: u64| j < 64 implies (#[trigger] (((mask | bit) >> j) & 1u64)
                    == 1u64) <==> (j < k + 1 && buffer@[start + j].eq_spec(needle)) by {
                    lemma_bit_set(mask, k as u64, j);
                }
            }
            mask = mask | bit;
        }
        k += 1;
    }
    mask
}

/// Sweeps `buffer` in blocks of `stride` lanes; in the first block whose
/// mask is not zero, the lowest set bit gives the index.
pub fn simd_find<T: SimdElement>(buffer: &[T], stride: usize, needle: &T) -> (r: Option<usize>)
    requires
        1 <= stride <= 64,
    ensures
        opt_index(r) == first_index(buffer@, *needle),
{
    proof {
        lemma_lane_scan_is_first_index(buffer@, *needle, stride as nat);
    }
    let len = buffer.len();
    let mut offset: usize = 0;
    while offset < len
        invariant
            1 <= stride <= 64,
            len == buffer@.len(),
            offset <= len,
            lane_scan(buffer@, *needle, stride as nat, 0) == first_index(buffer@, *needle),
            lane_scan(buffer@, *needle, stride as nat, 0) == lane_scan(
                buffer@,
                *needle,
                stride as nat,
                offset as nat,
            ),
        decreases len - offset,
    {
        let end = if len - offset >= stride {
            offset + stride
        } else {
            len
        };
        let mask = lane_mask(buffer, offset, end, needle);
        let ghost chunk = buffer@.subrange(offset as int, end as int);
        if mask != 0 {
            let lowest = mask.trailing_zeros() as usize;
            proof {
                let t = lowest as u64;
                assert((mask >> t) & 1u64 == 1u64);
                assert(chunk[lowest as int] == buffer@[offset + lowest]);
                assert forall|j: int| 0 <= j < lowest implies !(#[trigger] chunk[j]).eq_spec(
                    needle,
                ) by {
                    let jj = j as u64;
                    assert((mask >> jj) & 1u64 == 0u64);
                    assert(chunk[j] == buffer@[offset + jj]);
                }
                lemma_first_index_at(chunk, *needle, lowest as int);
            }
            return Some(offset + lowest);
        }
        proof {
            assert forall|j: int| 0 <= j < chunk.len() implies !(#[trigger] chunk[j]).eq_spec(
                needle,
            ) by {
                let jj = j as u64;
                lemma_zero_bits(jj);
                assert(chunk[j] == buffer@[offset + jj]);
            }
            lemma_first_index_none(chunk, *needle);
        }
        offset = end;
    }
    None
}

} // verus!
