//! A small capability for dense option arrays: growing or shrinking to a
//! given length with empty entries, and clearing one entry. Component
//! storages keep their cells in such arrays, indexed by entity slot index.

use vstd::prelude::*;

verus! {

/// `spec_resize_none(s, n)` is `s` cut or extended to length `n`, extending
/// with `None`.
pub open spec fn spec_resize_none<T>(s: Seq<Option<T>>, n: int) -> Seq<Option<T>> {
    if n <= s.len() {
        s.take(n)
    } else {
        s + Seq::new((n - s.len()) as nat, |j: int| None)
    }
}

/// A dense array of optional entries, resizable and erasable in place.
pub trait ComponentArray<T>: Sized {
    /// The entries of the array, in order.
    spec fn entries(&self) -> Seq<Option<T>>;

    /// Cuts or extends the array to length `size`, extending with `None`.
    fn resize_with_none(&mut self, size: usize)
        ensures
            final(self).entries() == spec_resize_none(old(self).entries(), size as int),
    ;

    /// Clears the entry at `index`.
    fn unset(&mut self, index: usize)
        requires
            index < old(self).entries().len(),
        ensures
            final(self).entries() == old(self).entries().update(index as int, None),
    ;
}

impl<T> ComponentArray<T> for Vec<Option<T>> {
    open spec fn entries(&self) -> Seq<Option<T>> {
        self@
    }

    fn resize_with_none(&mut self, size: usize) {
        let ghost s0 = self@;
        if self.len() > size {
            self.truncate(size);
            proof {
                assert(self@ =~= spec_resize_none(s0, size as int));
            }
        }
        proof {
            assert(self@ =~= spec_resize_none(s0, self@.len() as int));
        }
        while self.len() < size
            invariant
                s0 == old(self)@,
                self@.len() <= size,
                self@.len() >= s0.len() || self@.len() == size,
                self@ == spec_resize_none(s0, self@.len() as int),
            decreases size - self@.len(),
        {
            self.push(None);
            proof {
                assert(self@ =~= spec_resize_none(s0, self@.len() as int));
            }
        }
    }

    fn unset(&mut self, index: usize) {
        self[index] = None;
    }
}

} // verus!
