//! A fixed-capacity circular first-in-first-out buffer.
//!
//! The backing store is allocated once, at construction, and never resized.
//! Push and pop move the read cursor and the live count by modular index
//! arithmetic; free cells hold no value, so teardown finalizes each live
//! item exactly once and nothing else.

use vstd::prelude::*;

verus! {

/// A bounded queue over `N` pre-allocated cells.  `index` is the read
/// cursor, `count` the number of live items; the occupied cells are the
/// `count` cells starting at `index`, wrapping around.
pub struct RingBuf<T, const N: usize> {
    index: usize,
    count: usize,
    data: Vec<Option<T>>,
}

/// The physical cell that holds the `offset`-th live item (or the
/// `offset - count`-th free cell) of a buffer whose read cursor is `index`:
/// `(index + offset) % N`, written without `%` since both are below `N`.
pub open spec fn cell_at(index: int, offset: int, capacity: int) -> int {
    if index + offset < capacity {
        index + offset
    } else {
        index + offset - capacity
    }
}

impl<T, const N: usize> RingBuf<T, N> {
    /// The live items, oldest first.
    pub closed spec fn view(&self) -> Seq<T> {
        Seq::new(
            self.count as nat,
            |k: int| self.data@[cell_at(self.index as int, k, N as int)]->Some_0,
        )
    }

    /// The cells hold exactly the live items: one per occupied cell, none
    /// elsewhere.  This is what makes teardown leak-free and double-free-free.
    pub closed spec fn wf(&self) -> bool {
        &&& self.data@.len() == N
        &&& self.count <= N
        &&& self.index < N || (N == 0 && self.index == 0)
        &&& forall|k: int|
            0 <= k < self.count ==> (#[trigger] self.data@[cell_at(
                self.index as int,
                k,
                N as int,
            )]) is Some
        &&& forall|k: int|
            self.count <= k < N ==> (#[trigger] self.data@[cell_at(
                self.index as int,
                k,
                N as int,
            )]) is None
    }

    /// An empty buffer with all `N` cells allocated and free.
    pub fn new() -> (r: Self)
        ensures
            r.wf(),
            r@ == Seq::<T>::empty(),
    {
        let mut data: Vec<Option<T>> = Vec::new();
        while data.len() < N
            invariant
                data@.len() <= N,
                forall|k: int| 0 <= k < data@.len() ==> (#[trigger] data@[k]) is None,
            decreases N - data@.len(),
        {
            data.push(None);
        }
        let r = RingBuf { index: 0, count: 0, data };
        proof {
            assert(r@ =~= Seq::<T>::empty());
        }
        r
    }

    /// How many more items fit.
    pub fn remaining(&self) -> (r: usize)
        requires
            self.wf(),
        ensures
            r == N - self@.len(),
    {
        N - self.count
    }

    /// Append `item` if a cell is free; hand it back untouched, mutating
    /// nothing, if the buffer is full.
    pub fn push_back(&mut self, item: T) -> (r: Option<T>)
        requires
            old(self).wf(),
        ensures
            final(self).wf(),
            old(self)@.len() < N ==> r is None && final(self)@ == old(self)@.push(item),
            old(self)@.len() == N ==> r == Some(item) && final(self)@ == old(self)@,
    {
        if self.count < N {
            let free = N - self.count;
            let pos = if self.index < free {
                self.index + self.count
            } else {
                self.index - free
            };
            proof {
                assert(pos == cell_at(self.index as int, self.count as int, N as int));
                assert(self.data@[pos as int] is None);
            }
            self.data[pos] = Some(item);
            self.count = self.count + 1;
            proof {
                assert forall|k: int| 0 <= k < self.count implies (#[trigger] self.data@[cell_at(
                    self.index as int,
                    k,
                    N as int,
                )]) is Some by {
                    if k < old(self).count {
                        assert(cell_at(self.index as int, k, N as int) != pos as int);
                        assert(old(self).data@[cell_at(self.index as int, k, N as int)]
                            matches Some(_));
                    }
                }
                assert forall|k: int| self.count <= k < N implies (#[trigger] self.data@[cell_at(
                    self.index as int,
                    k,
                    N as int,
                )]) is None by {
                    assert(cell_at(self.index as int, k, N as int) != pos as int);
                    assert(old(self).data@[cell_at(self.index as int, k, N as int)]
                        matches None);
                }
                assert(self@ =~= old(self)@.push(item));
            }
            None
        } else {
            Some(item)
        }
    }

    /// Remove and return the oldest item, or nothing if the buffer is empty.
    pub fn pop_front(&mut self) -> (r: Option<T>)
        requires
            old(self).wf(),
        ensures
            final(self).wf(),
            old(self)@.len() > 0 ==> r == Some(old(self)@[0]) && final(self)@ == old(
                self,
            )@.drop_first(),
            old(self)@.len() == 0 ==> r is None && final(self)@ == old(self)@,
    {
        if self.count > 0 {
            proof {
                assert(cell_at(self.index as int, 0, N as int) == self.index as int);
                assert(self.data@[self.index as int] is Some);
            }
            let r = self.data[self.index].take();
            let old_index: Ghost<int> = Ghost(self.index as int);
            self.index = if self.index + 1 == N {
                0
            } else {
                self.index + 1
            };
            self.count = self.count - 1;
            proof {
                assert forall|k: int| 0 <= k < self.count implies (#[trigger] self.data@[cell_at(
                    self.index as int,
                    k,
                    N as int,
                )]) is Some by {
                    assert(cell_at(self.index as int, k, N as int) == cell_at(
                        old_index@,
                        k + 1,
                        N as int,
                    ));
                    assert(old(self).data@[cell_at(old_index@, k + 1, N as int)]
                        matches Some(_));
                    assert(cell_at(old_index@, k + 1, N as int) != old_index@);
                }
                assert forall|k: int| self.count <= k < N implies (#[trigger] self.data@[cell_at(
                    self.index as int,
                    k,
                    N as int,
                )]) is None by {
                    let c = cell_at(self.index as int, k, N as int);
                    if k == N - 1 {
                        assert(c == old_index@);
                    } else {
                        assert(c == cell_at(old_index@, k + 1, N as int));
                        assert(old(self).data@[c] is None);
                    }
                }
                assert(self@ =~= old(self)@.drop_first());
            }
            r
        } else {
            None
        }
    }
}

} // verus!
