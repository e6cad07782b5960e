//! Heap-backed containers of the object layer: a fixed-length array and a
//! growable vector whose storage would live behind a cell header. The
//! storage is held in a plain vector; the capacity field keeps the growth
//! policy observable.

use vstd::prelude::*;

verus! {

/// A fixed-length heap array.
pub struct GcArray<T> {
    data: Vec<T>,
}

impl<T> GcArray<T> {
    /// The elements.
    pub closed spec fn view(&self) -> Seq<T> {
        self.data@
    }

    /// A fresh array of `len` copies of `fill`.
    pub fn new(len: usize, fill: T) -> (r: Self) where T: Copy
        ensures
            r.view().len() == len,
            forall|i: int| 0 <= i < len ==> r.view()[i] == fill,
    {
        let mut data: Vec<T> = Vec::new();
        let mut i: usize = 0;
        while i < len
            invariant
                0 <= i <= len,
                data@.len() == i,
                forall|j: int| 0 <= j < i ==> data@[j] == fill,
            decreases len - i,
        {
            data.push(fill);
            i = i + 1;
        }
        GcArray { data }
    }

    /// Number of elements.
    pub fn len(&self) -> (r: usize)
        ensures
            r == self.view().len(),
    {
        self.data.len()
    }

    /// The element at an index.
    pub fn at(&self, index: usize) -> (r: &T)
        requires
            index < self.view().len(),
        ensures
            *r == self.view()[index as int],
    {
        &self.data[index]
    }

    /// Overwrite the element at an index.
    pub fn set(&mut self, index: usize, value: T)
        requires
            index < old(self).view().len(),
        ensures
            final(self).view() == old(self).view().update(index as int, value),
    {
        self.data[index] = value;
    }
}

/// The raw storage of a growable vector: a capacity and the live elements.
pub struct RawVec<T> {
    cap: usize,
    buf: Vec<T>,
}

impl<T> RawVec<T> {
    /// The live elements.
    pub closed spec fn view(&self) -> Seq<T> {
        self.buf@
    }

    /// The reserved capacity.
    pub closed spec fn spec_cap(&self) -> usize {
        self.cap
    }

    /// Number of live elements.
    pub fn len(&self) -> (r: usize)
        ensures
            r == self.view().len(),
    {
        self.buf.len()
    }

    /// Fresh empty storage with a capacity.
    pub fn new(len: usize) -> (r: Self)
        ensures
            r.view().len() == 0,
            r.spec_cap() == len,
    {
        RawVec { cap: len, buf: Vec::new() }
    }
}

/// A growable vector backed by heap storage.
pub struct GcVec<T> {
    raw: RawVec<T>,
}

impl<T> GcVec<T> {
    /// The live elements.
    pub closed spec fn view(&self) -> Seq<T> {
        self.raw.buf@
    }

    /// The reserved capacity.
    pub closed spec fn spec_cap(&self) -> usize {
        self.raw.cap
    }

    /// Fresh empty vector with a starting capacity.
    pub fn new(cap: usize) -> (r: Self)
        ensures
            r.view().len() == 0,
            r.spec_cap() == cap,
    {
        GcVec { raw: RawVec::new(cap) }
    }

    /// Grow the capacity to hold at least `n` elements, by seventy percent
    /// at a time; the elements stay as they are.
    pub fn reserve(&mut self, n: usize)
        ensures
            final(self).view() == old(self).view(),
            final(self).spec_cap() >= n,
            final(self).spec_cap() >= old(self).spec_cap(),
    {
        if n > self.raw.cap {
            let cap = self.raw.cap;
            let grown = if cap <= usize::MAX / 17 {
                cap * 17 / 10
            } else {
                cap
            };
            let next = if grown >= n {
                grown
            } else {
                n
            };
            self.raw.cap = next;
        }
    }

    /// Drop all elements.
    pub fn clear(&mut self)
        ensures
            final(self).view().len() == 0,
            final(self).spec_cap() == old(self).spec_cap(),
    {
        self.raw.buf.clear();
    }

    /// Shrink the capacity to the live length.
    pub fn shrink_to_fit(&mut self)
        ensures
            final(self).view() == old(self).view(),
            final(self).spec_cap() == old(self).view().len(),
    {
        self.raw.cap = self.raw.buf.len();
    }

    /// Insert an element at an index, shifting what follows.
    pub fn insert(&mut self, index: usize, element: T)
        requires
            index <= old(self).view().len(),
            old(self).view().len() < usize::MAX,
        ensures
            final(self).view() == old(self).view().insert(index as int, element),
            final(self).spec_cap() >= final(self).view().len(),
    {
        let len = self.raw.buf.len();
        self.reserve(len + 1);
        self.raw.buf.insert(index, element);
    }

    /// Number of live elements.
    pub fn len(&self) -> (r: usize)
        ensures
            r == self.view().len(),
    {
        self.raw.buf.len()
    }

    /// Append an element.
    pub fn push(&mut self, value: T)
        requires
            old(self).view().len() < usize::MAX,
        ensures
            final(self).view() == old(self).view().push(value),
            final(self).spec_cap() >= final(self).view().len(),
    {
        let len = self.raw.buf.len();
        self.reserve(len + 1);
        self.raw.buf.push(value);
    }

    /// Remove and return the last element, if any.
    pub fn pop(&mut self) -> (r: Option<T>)
        ensures
            old(self).view().len() == 0 ==> r is None && final(self).view() == old(self).view(),
            old(self).view().len() > 0 ==> (match r {
                Option::Some(v) => v == old(self).view().last() && final(self).view() == old(
                    self,
                ).view().drop_last(),
                Option::None => false,
            }),
            final(self).spec_cap() == old(self).spec_cap(),
    {
        if self.raw.buf.len() == 0 {
            None
        } else {
            self.raw.buf.pop()
        }
    }

    /// The element at an index.
    pub fn at(&self, index: usize) -> (r: &T)
        requires
            index < self.view().len(),
        ensures
            *r == self.view()[index as int],
    {
        &self.raw.buf[index]
    }

    /// Overwrite the element at an index.
    pub fn set(&mut self, index: usize, value: T)
        requires
            index < old(self).view().len(),
        ensures
            final(self).view() == old(self).view().update(index as int, value),
            final(self).spec_cap() == old(self).spec_cap(),
    {
        self.raw.buf[index] = value;
    }
}

} // verus!
