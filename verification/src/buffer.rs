//! A growable buffer indexed by dense identifiers

use vstd::prelude::*;

verus! {

/// A buffer of optional entries indexed from zero. The buffer has an entry
/// at every index: an index past the end of the underlying storage holds
/// nothing, and inserting there grows the storage.
pub struct GrowableBuffer<T> {
    /// The underlying storage
    buf: Vec<Option<T>>,
}

impl<T> GrowableBuffer<T> {
    /// The entry at an index, if the buffer holds one there
    pub closed spec fn entry(&self, idx: int) -> Option<T> {
        if 0 <= idx < self.buf@.len() {
            self.buf@[idx]
        } else {
            None
        }
    }

    /// Whether two buffers hold the same entries everywhere but at one index
    pub open spec fn same_except(&self, other: &GrowableBuffer<T>, idx: int) -> bool {
        forall|j: int| j != idx ==> #[trigger] self.entry(j) == other.entry(j)
    }

    /// An empty buffer with room for `size_hint` entries
    pub fn new(size_hint: usize) -> (r: Self)
        ensures
            forall|idx: int| (#[trigger] r.entry(idx)) is None,
    {
        GrowableBuffer { buf: Vec::with_capacity(size_hint) }
    }

    /// The entry at an index
    pub fn get(&self, idx: usize) -> (r: Option<&T>)
        ensures
            r is Some <==> self.entry(idx as int) is Some,
            r matches Some(value) ==> self.entry(idx as int) == Some(*value),
    {
        if idx < self.buf.len() {
            self.buf[idx].as_ref()
        } else {
            None
        }
    }

    /// Whether the buffer holds an entry at an index
    pub fn contains(&self, idx: usize) -> (r: bool)
        ensures
            r == self.entry(idx as int) is Some,
    {
        if idx < self.buf.len() {
            self.buf[idx].is_some()
        } else {
            false
        }
    }

    /// Grow the storage so that it covers an index: to twice its size, or as
    /// far as the index if that is further
    fn grow_to_fit(&mut self, idx: usize)
        requires
            idx < usize::MAX,
        ensures
            forall|j: int| #[trigger] final(self).entry(j) == old(self).entry(j),
            idx < final(self).buf@.len(),
    {
        let len = self.buf.len();
        if idx < len {
            return ;
        }
        let doubled: usize = if len <= usize::MAX / 2 {
            2 * len
        } else {
            usize::MAX
        };
        let target: usize = if doubled > idx {
            doubled
        } else {
            idx + 1
        };
        while self.buf.len() < target
            invariant
                old(self).buf@.len() <= self.buf@.len() <= target,
                forall|j: int|
                    0 <= j < self.buf@.len() ==> #[trigger] self.buf@[j] == (if j < old(
                        self,
                    ).buf@.len() {
                        old(self).buf@[j]
                    } else {
                        None
                    }),
            decreases target - self.buf@.len(),
        {
            self.buf.push(None);
        }
    }

    /// Put a value at an index and hand back what the buffer held there before
    pub fn insert(&mut self, idx: usize, value: T) -> (prev: Option<T>)
        requires
            idx < usize::MAX,
        ensures
            final(self).entry(idx as int) == Some(value),
            final(self).same_except(old(self), idx as int),
            prev == old(self).entry(idx as int),
    {
        self.grow_to_fit(idx);
        let ghost grown = *self;
        let mut slot = Some(value);
        core::mem::swap(&mut self.buf[idx], &mut slot);
        proof {
            assert(self.buf@ =~= grown.buf@.update(idx as int, Some(value)));
            assert(grown.entry(idx as int) == old(self).entry(idx as int));
            assert forall|j: int| j != idx implies #[trigger] self.entry(j) == old(self).entry(
                j,
            ) by {
                assert(grown.entry(j) == old(self).entry(j));
            }
        }
        slot
    }

    /// Take the value at an index out of the buffer
    pub fn take(&mut self, idx: usize) -> (prev: Option<T>)
        ensures
            final(self).entry(idx as int) is None,
            final(self).same_except(old(self), idx as int),
            prev == old(self).entry(idx as int),
    {
        if idx >= self.buf.len() {
            return None;
        }
        let ghost before = self.buf@;
        let mut slot = None;
        core::mem::swap(&mut self.buf[idx], &mut slot);
        proof {
            assert(self.buf@ =~= before.update(idx as int, None));
        }
        slot
    }
}

} // verus!
