//! A growable sequence with a small-buffer capacity policy: a list of small
//! elements runs on an inline budget of two machine words' worth of
//! elements and asks its allocator for a heap buffer, with lane-rounded
//! capacity, only once it outgrows that budget. The elements themselves
//! are held in a `Vec` in either case.

use crate::allocator::{global_heap_allocator, AllocErr, Allocator};
use crate::layout::{
    can_type_be_small, grown_capacity, growth_target, heap_target, lemma_heap_target,
    small_buffer_type_capacity, spec_can_be_small, spec_heap_target, spec_inline_capacity,
    spec_is_simd, spec_simd_stride, MAX_CAPACITY,
};
use crate::simd::{
    first_index, lane_scan, lemma_first_index_at, lemma_first_index_none,
    lemma_lane_scan_is_first_index, opt_index, simd_find, SimdElement, SimdKernel,
};
use vstd::prelude::*;
use vstd::std_specs::cmp::PartialEqSpec;

verus! {

broadcast use vstd::layout::layout_of_primitives;

/// The representation of a list's storage.
#[derive(Debug, Clone, Copy, PartialEq, Eq, Structural)]
pub enum ArrayListRep {
    /// The inline budget: the capacity is as many elements as fit in two
    /// machine words, and no buffer has been asked of the allocator.
    Inline,
    /// A buffer granted by the allocator, with room for `capacity`
    /// elements.
    Heap { capacity: usize },
}

/// Capacity a list gets when it grows from capacity `c`.
pub open spec fn spec_grow_capacity<T>(c: nat) -> nat {
    spec_heap_target::<T>(growth_target(c))
}

/// Capacity `reserve` grows to when `needed` elements do not fit in
/// capacity `c`.
pub open spec fn spec_reserve_target<T>(needed: nat, c: nat) -> nat {
    spec_heap_target::<T>(if needed > growth_target(c) { needed } else { growth_target(c) })
}

/// Capacity `shrink_to(floor)` aims at for a list of `len` elements.
pub open spec fn spec_shrink_target<T>(len: nat, floor: nat) -> nat {
    spec_heap_target::<T>(if floor < len { len } else { floor })
}

/// The sequence left by `swap_remove(i)`: the last element moves into
/// place `i` and the sequence loses its last place.
pub open spec fn swap_removed<T>(s: Seq<T>, i: int) -> Seq<T> {
    s.update(i, s.last()).drop_last()
}

/// `new` is what a successful `reserve(additional)` leaves of `old`:
/// unchanged when the room is there, else the same elements in heap
/// storage of capacity [`spec_reserve_target`].
pub open spec fn spec_reserved<T>(old: &ArrayList<T>, new: &ArrayList<T>, additional: nat) -> bool {
    if old@.len() + additional <= old.spec_capacity() {
        new.same_state(old)
    } else {
        &&& new@ == old@
        &&& new.spec_is_heap()
        &&& new.spec_capacity() == spec_reserve_target::<T>(
            old@.len() + additional,
            old.spec_capacity(),
        )
    }
}

/// `new` is what `shrink_to_fit` leaves of `old`: an inline list stays as
/// it is; a heap capacity comes down to the lane-rounded length when it is
/// above it, else nothing changes.
pub open spec fn spec_shrunk_to_fit<T>(old: &ArrayList<T>, new: &ArrayList<T>) -> bool {
    if old.spec_is_heap() && old.spec_capacity() > spec_heap_target::<T>(old@.len()) {
        &&& new@ == old@
        &&& new.spec_is_heap()
        &&& new.spec_capacity() == spec_heap_target::<T>(old@.len())
    } else {
        new.same_state(old)
    }
}

/// The elements of `s` whose entry in `keep` is true, in order.
pub open spec fn kept<T>(s: Seq<T>, keep: Seq<bool>) -> Seq<T>
    decreases s.len(),
{
    if s.len() == 0 {
        Seq::empty()
    } else {
        let front = kept(s.drop_last(), keep.subrange(0, s.len() - 1));
        if keep[s.len() - 1] {
            front.push(s.last())
        } else {
            front
        }
    }
}

/// `new` is what `shrink_to(floor)` leaves of `old`: an inline list stays
/// as it is; a heap capacity of at least `floor` comes down to
/// [`spec_shrink_target`] when it is above it, else nothing changes.
pub open spec fn spec_shrunk_to<T>(old: &ArrayList<T>, new: &ArrayList<T>, floor: nat) -> bool {
    if old.spec_is_heap() && old.spec_capacity() >= floor && old.spec_capacity()
        > spec_shrink_target::<T>(old@.len(), floor) {
        &&& new@ == old@
        &&& new.spec_is_heap()
        &&& new.spec_capacity() == spec_shrink_target::<T>(old@.len(), floor)
    } else {
        new.same_state(old)
    }
}

/// Whether `with_capacity(_, n)` needs a heap buffer.
pub open spec fn spec_needs_heap<T>(n: nat) -> bool {
    n > 0 && !(spec_can_be_small::<T>() && n <= spec_inline_capacity::<T>())
}

/// A growable sequence. Its elements are held in order in `elems`; `rep`
/// records whether the list still runs on its inline budget or on a
/// buffer granted by `allocator`, and that buffer's capacity.
pub struct ArrayList<T> {
    allocator: Allocator,
    elems: Vec<T>,
    rep: ArrayListRep,
}

impl<T> View for ArrayList<T> {
    type V = Seq<T>;

    closed spec fn view(&self) -> Seq<T> {
        self.elems@
    }
}

impl<T> ArrayList<T> {
    /// Whether the elements have moved to heap storage. Once they have,
    /// they stay there.
    pub closed spec fn spec_is_heap(&self) -> bool {
        self.rep is Heap
    }

    /// How many elements the list holds without growing.
    pub closed spec fn spec_capacity(&self) -> nat {
        match self.rep {
            ArrayListRep::Inline => spec_inline_capacity::<T>(),
            ArrayListRep::Heap { capacity } => capacity as nat,
        }
    }

    /// The allocator the list was made with.
    pub closed spec fn spec_allocator(&self) -> Allocator {
        self.allocator
    }

    /// Same elements, capacity and representation.
    pub open spec fn same_state(&self, other: &Self) -> bool {
        &&& self@ == other@
        &&& self.spec_capacity() == other.spec_capacity()
        &&& self.spec_is_heap() == other.spec_is_heap()
    }

    /// The list's invariant: no more elements than capacity, a capacity
    /// that storage can be asked for, heap storage for types that cannot be
    /// inline, and lane-rounded heap capacities for lane-searchable types.
    pub closed spec fn wf(&self) -> bool {
        &&& self.elems@.len() <= self.spec_capacity()
        &&& self.spec_capacity() <= MAX_CAPACITY
        &&& !spec_can_be_small::<T>() ==> self.rep is Heap
        &&& (self.rep is Heap && spec_is_simd::<T>()) ==> self.spec_capacity()
            % spec_simd_stride::<T>() == 0
    }

    /// An empty list that uses a copy of `allocator`. Types that fit
    /// inline start inline; others start on the heap with no buffer.
    pub fn new(allocator: &Allocator) -> (r: Self)
        ensures
            r.wf(),
            r@ == Seq::<T>::empty(),
            r.spec_allocator() == *allocator,
            r.spec_is_heap() == !spec_can_be_small::<T>(),
            r.spec_capacity() == spec_inline_capacity::<T>(),
    {
        let rep = if can_type_be_small::<T>() {
            ArrayListRep::Inline
        } else {
            ArrayListRep::Heap { capacity: 0 }
        };
        ArrayList { allocator: *allocator, elems: Vec::new(), rep }
    }

    /// An empty list with room for at least `capacity` elements. A request
    /// that fits inline is ignored.
    pub fn with_capacity(allocator: &Allocator, capacity: usize) -> (r: Result<Self, AllocErr>)
        ensures
            r matches Ok(l) ==> l.wf() && l.spec_allocator() == *allocator,
            !spec_needs_heap::<T>(capacity as nat) ==> (r matches Ok(l) && l@ == Seq::<T>::empty()
                && l.spec_is_heap() == !spec_can_be_small::<T>() && l.spec_capacity()
                == spec_inline_capacity::<T>()),
            spec_needs_heap::<T>(capacity as nat) ==> match r {
                Ok(l) => l@ == Seq::<T>::empty() && l.spec_is_heap() && l.spec_capacity()
                    == spec_heap_target::<T>(capacity as nat),
                Err(e) => e == AllocErr::OutOfMemory,
            },
            spec_needs_heap::<T>(capacity as nat) && spec_heap_target::<T>(capacity as nat)
                > MAX_CAPACITY ==> r is Err,
    {
        let mut list = ArrayList::new(allocator);
        if capacity == 0 {
            return Ok(list);
        }
        if can_type_be_small::<T>() && capacity <= small_buffer_type_capacity::<T>() {
            return Ok(list);
        }
        match list.reallocate(capacity) {
            Ok(()) => Ok(list),
            Err(e) => Err(e),
        }
    }

    /// Whether the elements are still inline.
    pub fn is_small_rep(&self) -> (r: bool)
        requires
            self.wf(),
        ensures
            r == !self.spec_is_heap(),
            r ==> self.spec_capacity() == spec_inline_capacity::<T>(),
    {
        match self.rep {
            ArrayListRep::Inline => true,
            ArrayListRep::Heap { .. } => false,
        }
    }

    /// Number of elements.
    pub fn len(&self) -> (r: usize)
        ensures
            r as nat == self@.len(),
    {
        self.elems.len()
    }

    /// Number of elements the list holds without growing.
    pub fn capacity(&self) -> (r: usize)
        requires
            self.wf(),
        ensures
            r as nat == self.spec_capacity(),
            !self.spec_is_heap() ==> r as nat == spec_inline_capacity::<T>(),
    {
        match self.rep {
            ArrayListRep::Inline => small_buffer_type_capacity::<T>(),
            ArrayListRep::Heap { capacity } => capacity,
        }
    }

    /// The allocator this list uses.
    pub fn allocator(&self) -> (r: &Allocator)
        ensures
            *r == self.spec_allocator(),
    {
        &self.allocator
    }

    /// The elements, in order.
    pub fn as_slice(&self) -> (r: &[T])
        ensures
            r@ == self@,
    {
        self.elems.as_slice()
    }

    /// Replaces the element at `index` by `value`.
    pub fn set(&mut self, index: usize, value: T)
        requires
            old(self).wf(),
            index < old(self)@.len(),
        ensures
            final(self).wf(),
            final(self)@ == old(self)@.update(index as int, value),
            final(self).spec_capacity() == old(self).spec_capacity(),
            final(self).spec_is_heap() == old(self).spec_is_heap(),
    {
        self.elems.set(index, value);
    }

    /// The element at `index`.
    pub fn get(&self, index: usize) -> (r: &T)
        requires
            index < self@.len(),
        ensures
            *r == self@[index as int],
    {
        &self.elems[index]
    }

    /// Moves the elements to a heap buffer of capacity
    /// `spec_heap_target(min_capacity)`. On a refusal by the allocator the
    /// list is left as it was.
    fn reallocate(&mut self, min_capacity: usize) -> (r: Result<(), AllocErr>)
        requires
            old(self).wf(),
            old(self)@.len() <= min_capacity,
        ensures
            final(self).wf(),
            final(self).spec_allocator() == old(self).spec_allocator(),
            match r {
                Ok(()) => final(self)@ == old(self)@ && final(self).spec_is_heap()
                    && final(self).spec_capacity() == spec_heap_target::<T>(min_capacity as nat),
                Err(e) => final(self).same_state(old(self)) && e == AllocErr::OutOfMemory,
            },
            spec_heap_target::<T>(min_capacity as nat) > MAX_CAPACITY ==> r is Err,
            spec_heap_target::<T>(min_capacity as nat) <= old(self).spec_capacity() ==> r is Ok,
    {
        proof {
            lemma_heap_target::<T>(min_capacity as nat);
        }
        let target = match heap_target::<T>(min_capacity) {
            Ok(t) => t,
            Err(e) => return Err(e),
        };
        if target > self.capacity() {
            match self.allocator.reserve_buffer(&mut self.elems, target) {
                Ok(()) => {},
                Err(e) => return Err(e),
            }
        } else {
            self.allocator.shrink_buffer(&mut self.elems, target);
        }
        self.rep = ArrayListRep::Heap { capacity: target };
        Ok(())
    }

    /// Appends `element`, growing to [`spec_grow_capacity`] when full.
    pub fn push(&mut self, element: T) -> (r: Result<(), AllocErr>)
        requires
            old(self).wf(),
        ensures
            final(self).wf(),
            final(self).spec_capacity() >= old(self).spec_capacity(),
            old(self).spec_is_heap() ==> final(self).spec_is_heap(),
            match r {
                Ok(()) => {
                    &&& final(self)@ == old(self)@.push(element)
                    &&& old(self)@.len() < old(self).spec_capacity() ==> final(self).spec_capacity()
                        == old(self).spec_capacity() && final(self).spec_is_heap()
                        == old(self).spec_is_heap()
                    &&& old(self)@.len() == old(self).spec_capacity() ==> final(self).spec_is_heap()
                        && final(self).spec_capacity() == spec_grow_capacity::<T>(
                        old(self).spec_capacity(),
                    )
                },
                Err(e) => final(self).same_state(old(self)) && e == AllocErr::OutOfMemory
                    && old(self)@.len() == old(self).spec_capacity(),
            },
            old(self)@.len() < old(self).spec_capacity() ==> r is Ok,
            old(self)@.len() == old(self).spec_capacity() && spec_grow_capacity::<T>(
                old(self).spec_capacity(),
            ) > MAX_CAPACITY ==> r is Err,
    {
        let length = self.len();
        let capacity = self.capacity();
        if length == capacity {
            proof {
                lemma_heap_target::<T>(growth_target(capacity as nat));
            }
            match self.reallocate(grown_capacity(capacity)) {
                Ok(()) => {},
                Err(e) => return Err(e),
            }
        }
        self.elems.push(element);
        Ok(())
    }

    /// Puts `element` at `index`, shifting the elements from `index` on one
    /// place towards the end; grows as [`Self::push`] does.
    pub fn insert(&mut self, index: usize, element: T) -> (r: Result<(), AllocErr>)
        requires
            old(self).wf(),
            index < old(self)@.len(),
        ensures
            final(self).wf(),
            final(self).spec_capacity() >= old(self).spec_capacity(),
            old(self).spec_is_heap() ==> final(self).spec_is_heap(),
            match r {
                Ok(()) => {
                    &&& final(self)@ == old(self)@.insert(index as int, element)
                    &&& old(self)@.len() < old(self).spec_capacity() ==> final(self).spec_capacity()
                        == old(self).spec_capacity() && final(self).spec_is_heap()
                        == old(self).spec_is_heap()
                    &&& old(self)@.len() == old(self).spec_capacity() ==> final(self).spec_is_heap()
                        && final(self).spec_capacity() == spec_grow_capacity::<T>(
                        old(self).spec_capacity(),
                    )
                },
                Err(e) => final(self).same_state(old(self)) && e == AllocErr::OutOfMemory
                    && old(self)@.len() == old(self).spec_capacity(),
            },
            old(self)@.len() < old(self).spec_capacity() ==> r is Ok,
            old(self)@.len() == old(self).spec_capacity() && spec_grow_capacity::<T>(
                old(self).spec_capacity(),
            ) > MAX_CAPACITY ==> r is Err,
    {
        let length = self.len();
        let capacity = self.capacity();
        if length == capacity {
            proof {
                lemma_heap_target::<T>(growth_target(capacity as nat));
            }
            match self.reallocate(grown_capacity(capacity)) {
                Ok(()) => {},
                Err(e) => return Err(e),
            }
        }
        self.elems.insert(index, element);
        Ok(())
    }

    /// Takes out the element at `index`, shifting the later elements one
    /// place towards the front. The capacity stays.
    pub fn remove(&mut self, index: usize) -> (r: T)
        requires
            old(self).wf(),
            index < old(self)@.len(),
        ensures
            final(self).wf(),
            r == old(self)@[index as int],
            final(self)@ == old(self)@.remove(index as int),
            final(self).spec_capacity() == old(self).spec_capacity(),
            final(self).spec_is_heap() == old(self).spec_is_heap(),
    {
        self.elems.remove(index)
    }

    /// Takes out the element at `index` and moves the last element into its
    /// place. The capacity stays.
    pub fn swap_remove(&mut self, index: usize) -> (r: T)
        requires
            old(self).wf(),
            index < old(self)@.len(),
        ensures
            final(self).wf(),
            r == old(self)@[index as int],
            final(self)@ == swap_removed(old(self)@, index as int),
            final(self).spec_capacity() == old(self).spec_capacity(),
            final(self).spec_is_heap() == old(self).spec_is_heap(),
    {
        self.elems.swap_remove(index)
    }
    /// Makes room for at least `additional` more elements; when it has to
    /// grow it takes at least [`spec_grow_capacity`], so that repeated
    /// calls stay amortised.
    pub fn reserve(&mut self, additional: usize) -> (r: Result<(), AllocErr>)
        requires
            old(self).wf(),
        ensures
            final(self).wf(),
            old(self).spec_is_heap() ==> final(self).spec_is_heap(),
            r is Ok ==> spec_reserved(old(self), final(self), additional as nat),
            r matches Err(e) ==> final(self).same_state(old(self)) && e == AllocErr::OutOfMemory,
            final(self).spec_capacity() >= old(self).spec_capacity(),
            old(self)@.len() + additional <= old(self).spec_capacity() ==> r is Ok,
            old(self)@.len() + additional > old(self).spec_capacity() && spec_reserve_target::<T>(
                (old(self)@.len() + additional) as nat,
                old(self).spec_capacity(),
            ) > MAX_CAPACITY ==> r is Err,
    {
        let length = self.len();
        let capacity = self.capacity();
        if additional <= capacity - length {
            return Ok(());
        }
        if additional > MAX_CAPACITY - length {
            proof {
                lemma_heap_target::<T>((length + additional) as nat);
                lemma_heap_target::<T>(growth_target(capacity as nat));
            }
            return Err(AllocErr::OutOfMemory);
        }
        let needed = length + additional;
        let grown = grown_capacity(capacity);
        let target = if needed > grown {
            needed
        } else {
            grown
        };
        proof {
            lemma_heap_target::<T>(target as nat);
        }
        self.reallocate(target)
    }

    /// Makes room for at least `additional` more elements, asking for no
    /// more than that beyond the lane rounding.
    pub fn reserve_exact(&mut self, additional: usize) -> (r: Result<(), AllocErr>)
        requires
            old(self).wf(),
        ensures
            final(self).wf(),
            final(self).spec_capacity() >= old(self).spec_capacity(),
            old(self).spec_is_heap() ==> final(self).spec_is_heap(),
            final(self)@ == old(self)@,
            old(self)@.len() + additional <= old(self).spec_capacity() ==> r is Ok && final(self).same_state(old(self)),
            old(self)@.len() + additional > old(self).spec_capacity() ==> match r {
                Ok(()) => final(self).spec_is_heap() && final(self).spec_capacity()
                    == spec_heap_target::<T>((old(self)@.len() + additional) as nat),
                Err(e) => final(self).same_state(old(self)) && e == AllocErr::OutOfMemory,
            },
            old(self)@.len() + additional > old(self).spec_capacity() && spec_heap_target::<T>(
                (old(self)@.len() + additional) as nat,
            ) > MAX_CAPACITY ==> r is Err,
    {
        let length = self.len();
        let capacity = self.capacity();
        if additional <= capacity - length {
            return Ok(());
        }
        if additional > MAX_CAPACITY - length {
            proof {
                lemma_heap_target::<T>((length + additional) as nat);
            }
            return Err(AllocErr::OutOfMemory);
        }
        proof {
            lemma_heap_target::<T>((length + additional) as nat);
        }
        self.reallocate(length + additional)
    }

    /// Lowers a heap capacity to the length rounded up to the lane stride,
    /// when it is above that. An inline list is left as it is, and a heap
    /// list never returns to inline storage.
    pub fn shrink_to_fit(&mut self)
        requires
            old(self).wf(),
        ensures
            final(self).wf(),
            spec_shrunk_to_fit(old(self), final(self)),
    {
        if self.is_small_rep() {
            return;
        }
        let length = self.len();
        let capacity = self.capacity();
        proof {
            lemma_heap_target::<T>(length as nat);
        }
        if let Ok(min_capacity) = heap_target::<T>(length) {
            if capacity > min_capacity {
                proof {
                    lemma_heap_target::<T>(min_capacity as nat);
                }
                let _ = self.reallocate(min_capacity);
            }
        }
    }

    /// Lowers a heap capacity to `max(len, min_capacity)` rounded up to the
    /// lane stride, when it is above that; does nothing when the capacity
    /// is already below `min_capacity`, and nothing to an inline list.
    pub fn shrink_to(&mut self, min_capacity: usize)
        requires
            old(self).wf(),
        ensures
            final(self).wf(),
            spec_shrunk_to(old(self), final(self), min_capacity as nat),
    {
        if self.is_small_rep() {
            return;
        }
        let length = self.len();
        let capacity = self.capacity();
        if capacity < min_capacity {
            return;
        }
        let lower_bound = if min_capacity < length {
            length
        } else {
            min_capacity
        };
        proof {
            lemma_heap_target::<T>(lower_bound as nat);
        }
        if let Ok(target) = heap_target::<T>(lower_bound) {
            if capacity > target {
                proof {
                    lemma_heap_target::<T>(target as nat);
                }
                let _ = self.reallocate(target);
            }
        }
    }

    /// Keeps the elements for which `f` answers true, in order, and drops
    /// the others. `f` is asked once per element, front to back. The
    /// capacity stays.
    pub fn retain<F: Fn(&T) -> bool>(&mut self, f: F)
        requires
            old(self).wf(),
            forall|x: &T| #[trigger] call_requires(f, (x,)),
        ensures
            final(self).wf(),
            final(self).spec_capacity() == old(self).spec_capacity(),
            final(self).spec_is_heap() == old(self).spec_is_heap(),
            exists|keep: Seq<bool>|
                {
                    &&& keep.len() == old(self)@.len()
                    &&& forall|i: int|
                        0 <= i < keep.len() ==> call_ensures(f, (&old(self)@[i],), #[trigger] keep[i])
                    &&& final(self)@ == #[trigger] kept(old(self)@, keep)
                },
    {
        let ghost orig = self@;
        let ghost mut keep: Seq<bool> = Seq::empty();
        let mut i: usize = 0;
        let mut j: usize = 0;
        let n = self.elems.len();
        while j < n
            invariant
                orig.len() == n,
                j <= n,
                keep.len() == j,
                i as nat == kept(orig.subrange(0, j as int), keep).len(),
                self.elems@ == kept(orig.subrange(0, j as int), keep) + orig.subrange(j as int, n as int),
                forall|t: int| 0 <= t < j ==> call_ensures(f, (&orig[t],), #[trigger] keep[t]),
                forall|x: &T| #[trigger] call_requires(f, (x,)),
                self.wf(),
                self.spec_capacity() == old(self).spec_capacity(),
                self.spec_is_heap() == old(self).spec_is_heap(),
            decreases n - j,
        {
            let ghost prefix = kept(orig.subrange(0, j as int), keep);
            assert(self.elems@[i as int] == orig[j as int]);
            let b = f(&self.elems[i]);
            proof {
                let next = keep.push(b);
                assert(orig.subrange(0, j + 1).drop_last() =~= orig.subrange(0, j as int));
                assert(next.subrange(0, j as int) =~= keep);
                keep = next;
            }
            if b {
                i += 1;
                assert(self.elems@ =~= kept(orig.subrange(0, j + 1), keep) + orig.subrange(j + 1, n as int));
            } else {
                self.elems.remove(i);
                assert(self.elems@ =~= kept(orig.subrange(0, j + 1), keep) + orig.subrange(j + 1, n as int));
            }
            j += 1;
        }
        assert(orig.subrange(0, n as int) =~= orig);
        assert(self.elems@ =~= kept(orig, keep));
    }

    /// Keeps the first `len` elements and drops the rest; does nothing when
    /// the list is no longer than `len`. The capacity stays.
    pub fn truncate(&mut self, len: usize)
        requires
            old(self).wf(),
        ensures
            final(self).wf(),
            len < old(self)@.len() ==> final(self)@ == old(self)@.subrange(0, len as int),
            len >= old(self)@.len() ==> final(self)@ == old(self)@,
            final(self).spec_capacity() == old(self).spec_capacity(),
            final(self).spec_is_heap() == old(self).spec_is_heap(),
    {
        self.elems.truncate(len);
    }

    /// Cuts the list down to `new_length` elements; the capacity stays.
    pub fn set_len(&mut self, new_length: usize)
        requires
            old(self).wf(),
            new_length <= old(self)@.len(),
        ensures
            final(self).wf(),
            final(self)@ == old(self)@.subrange(0, new_length as int),
            final(self).spec_capacity() == old(self).spec_capacity(),
            final(self).spec_is_heap() == old(self).spec_is_heap(),
    {
        self.elems.truncate(new_length);
    }
}

impl<T: PartialEq> ArrayList<T> {
    /// Index of the first element `==` to `element`, scanning from the front.
    pub fn find(&self, element: &T) -> (r: Option<usize>)
        ensures
            T::obeys_eq_spec() ==> opt_index(r) == first_index(self@, *element),
    {
        let length = self.elems.len();
        let mut i: usize = 0;
        while i < length
            invariant
                length == self@.len(),
                i <= length,
                T::obeys_eq_spec() ==> forall|j: int|
                    0 <= j < i ==> !(#[trigger] self@[j]).eq_spec(element),
            decreases length - i,
        {
            if self.elems[i] == *element {
                proof {
                    if T::obeys_eq_spec() {
                        lemma_first_index_at(self@, *element, i as int);
                    }
                }
                return Some(i);
            }
            i += 1;
        }
        proof {
            if T::obeys_eq_spec() {
                lemma_first_index_none(self@, *element);
            }
        }
        None
    }
}

impl<T: SimdElement> ArrayList<T> {
    /// Index of the first element equal to `element`, found with the lane
    /// kernel `kernel` once the capacity spans a whole lane vector, and by
    /// a front-to-back scan before that.
    pub fn find_simd(&self, element: &T, kernel: SimdKernel) -> (r: Option<usize>)
        requires
            self.wf(),
        ensures
            opt_index(r) == first_index(self@, *element),
    {
        proof {
            T::lemma_simd_element();
        }
        let lanes = kernel.lanes::<T>();
        if self.capacity() < lanes {
            self.find(element)
        } else {
            simd_find(self.as_slice(), lanes, element)
        }
    }
}

impl<T> Default for ArrayList<T> {
    /// An empty list on the process heap allocator.
    fn default() -> (r: Self)
        ensures
            r.wf(),
            r@ == Seq::<T>::empty(),
            r.spec_is_heap() == !spec_can_be_small::<T>(),
            r.spec_capacity() == spec_inline_capacity::<T>(),
    {
        ArrayList::new(&global_heap_allocator())
    }
}

/// A well-formed list never holds more elements than its capacity; every
/// operation keeps the list well formed.
pub proof fn lemma_len_within_capacity<T>(l: &ArrayList<T>)
    requires
        l.wf(),
    ensures
        l@.len() <= l.spec_capacity(),
{
}

/// An inline list holds exactly the inline capacity of its element type,
/// and only types that may be inline are ever inline.
pub proof fn lemma_inline_capacity<T>(l: &ArrayList<T>)
    requires
        l.wf(),
        !l.spec_is_heap(),
    ensures
        l.spec_capacity() == spec_inline_capacity::<T>(),
        spec_can_be_small::<T>(),
{
}

/// Heap capacities of lane-searchable element types are whole multiples of
/// the lane stride, so a sweep of whole lane vectors stays in the buffer.
pub proof fn lemma_heap_capacity_is_lane_multiple<T>(l: &ArrayList<T>)
    requires
        l.wf(),
        l.spec_is_heap(),
        spec_is_simd::<T>(),
    ensures
        l.spec_capacity() % spec_simd_stride::<T>() == 0,
{
}

/// Growth from capacity `c` reaches at least the ceiling of one and a half
/// times `c + 1`; `reserve` also reaches at least what it was asked for.
pub proof fn lemma_growth_policy<T>(c: nat, needed: nat)
    ensures
        2 * growth_target(c) >= 3 * (c + 1),
        spec_grow_capacity::<T>(c) >= growth_target(c),
        spec_reserve_target::<T>(needed, c) >= growth_target(c),
        spec_reserve_target::<T>(needed, c) >= needed,
{
    lemma_heap_target::<T>(growth_target(c));
    lemma_heap_target::<T>(if needed > growth_target(c) { needed } else { growth_target(c) });
}

/// For lane-searchable element types `find` and `find_simd` give the same
/// answer: `==` follows its specification, and the lane sweep of every
/// kernel finds what the front-to-back scan finds.
pub proof fn lemma_find_simd_agrees_with_find<T: SimdElement>(l: &ArrayList<T>, x: T)
    ensures
        T::obeys_eq_spec(),
        forall|k: SimdKernel|
            lane_scan(l@, x, #[trigger] k.spec_lanes::<T>(), 0) == first_index(l@, x),
{
    T::lemma_simd_element();
    assert forall|k: SimdKernel| lane_scan(l@, x, #[trigger] k.spec_lanes::<T>(), 0) == first_index(
        l@,
        x,
    ) by {
        assert(k.spec_lanes::<T>() > 0);
        lemma_lane_scan_is_first_index(l@, x, k.spec_lanes::<T>());
    }
}

/// `swap_remove` of the last place hands back the last element and keeps
/// the order of all the others.
pub proof fn lemma_swap_remove_last<T>(s: Seq<T>)
    requires
        s.len() > 0,
    ensures
        swap_removed(s, s.len() - 1) == s.drop_last(),
        s[s.len() - 1] == s.last(),
{
    assert(swap_removed(s, s.len() - 1) =~= s.drop_last());
}

/// After a successful `reserve(n)`, a `reserve(m)` with `m <= n` finds
/// the room there and changes nothing.
pub proof fn lemma_reserve_again_is_noop<T>(a: &ArrayList<T>, b: &ArrayList<T>, n: nat, m: nat)
    requires
        spec_reserved(a, b, n),
        m <= n,
    ensures
        b@.len() + m <= b.spec_capacity(),
        forall|c: ArrayList<T>| spec_reserved(b, &c, m) ==> c.same_state(b),
{
    lemma_growth_policy::<T>(a.spec_capacity(), a@.len() + n);
}

/// `shrink_to_fit` twice leaves the list as once.
pub proof fn lemma_shrink_to_fit_idempotent<T>(a: &ArrayList<T>, b: &ArrayList<T>, c: &ArrayList<T>)
    requires
        spec_shrunk_to_fit(a, b),
        spec_shrunk_to_fit(b, c),
    ensures
        c.same_state(b),
{
}

/// `push(x)` followed by `swap_remove` of the last place hands back `x`
/// and restores the elements.
pub proof fn lemma_push_then_swap_remove_last<T>(s: Seq<T>, x: T)
    ensures
        s.push(x)[s.len() as int] == x,
        swap_removed(s.push(x), s.len() as int) == s,
{
    assert(swap_removed(s.push(x), s.len() as int) =~= s);
}

/// `insert(i, x)` followed by `remove(i)` hands back `x` and restores the
/// order.
pub proof fn lemma_insert_then_remove<T>(s: Seq<T>, i: int, x: T)
    requires
        0 <= i < s.len(),
    ensures
        s.insert(i, x)[i] == x,
        s.insert(i, x).remove(i) == s,
{
    assert(s.insert(i, x).remove(i) =~= s);
}

} // verus!
