//! A forward cursor over the elements of a list.

use crate::array_list::ArrayList;
use vstd::prelude::*;

verus! {

/// Yields the elements of a list front to back, up to the length the list
/// had when the cursor was made.
pub struct ArrayListIter<'a, T> {
    list: &'a ArrayList<T>,
    index: usize,
    num: usize,
}

impl<'a, T> ArrayListIter<'a, T> {
    pub closed spec fn spec_list(&self) -> &'a ArrayList<T> {
        self.list
    }

    /// Position of the next element.
    pub closed spec fn spec_index(&self) -> nat {
        self.index as nat
    }

    /// Number of elements the cursor walks over.
    pub closed spec fn spec_num(&self) -> nat {
        self.num as nat
    }

    /// The elements still to come.
    pub open spec fn remaining(&self) -> Seq<T> {
        self.spec_list()@.subrange(self.spec_index() as int, self.spec_num() as int)
    }

    pub closed spec fn wf(&self) -> bool {
        self.index <= self.num && self.num == self.list@.len()
    }

    /// A cursor at the front of `list`.
    pub fn new(list: &'a ArrayList<T>) -> (r: Self)
        ensures
            r.wf(),
            r.spec_list() == list,
            r.remaining() == list@,
    {
        let r = ArrayListIter { list, index: 0, num: list.len() };
        assert(list@.subrange(0, list@.len() as int) =~= list@);
        r
    }

    /// The next element, or `None` once all have been yielded.
    pub fn next(&mut self) -> (r: Option<&'a T>)
        requires
            old(self).wf(),
        ensures
            final(self).wf(),
            final(self).spec_list() == old(self).spec_list(),
            old(self).remaining().len() == 0 ==> r is None && final(self).remaining()
                == old(self).remaining(),
            old(self).remaining().len() > 0 ==> r == Some(&old(self).remaining()[0])
                && final(self).remaining() == old(self).remaining().drop_first(),
    {
        if self.index == self.num {
            return None;
        }
        let item = self.list.get(self.index);
        self.index = self.index + 1;
        assert(self.remaining() =~= old(self).remaining().drop_first());
        Some(item)
    }
}

impl<T> ArrayList<T> {
    /// A cursor over the elements, front to back.
    pub fn iter(&self) -> (r: ArrayListIter<'_, T>)
        ensures
            r.wf(),
            r.remaining() == self@,
    {
        ArrayListIter::new(self)
    }
}

} // verus!
