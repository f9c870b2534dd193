//! Fixed-size buffer handles.
//!
//! The generator shares its seed vector, and the interleaved per-vertex
//! quantities, between several consumers through small buffer handles:
//! a backing store that owns the values, a read handle, and a
//! read-write handle.  A handle carries the values themselves, so its
//! contents are exactly what it was taken from.

use vstd::prelude::*;

verus! {

/// Read handle on a run of values of fixed length.
#[derive(Clone, Debug)]
pub struct FixedSizeBufferRef<T> {
    /// The values of the buffer.
    pub data: Vec<T>,
}

impl<T: Copy> FixedSizeBufferRef<T> {
    /// Wrap a run of values.
    pub(crate) fn new(data: Vec<T>) -> (r: Self)
        ensures
            r.data@ == data@,
    {
        FixedSizeBufferRef { data }
    }

    /// Number of values.
    pub fn len(&self) -> (r: usize)
        ensures
            r == self.data@.len(),
    {
        self.data.len()
    }

    /// The value at position `i`.
    pub fn get(&self, i: usize) -> (r: T)
        requires
            i < self.data@.len(),
        ensures
            r == self.data@[i as int],
    {
        self.data[i]
    }
}

/// Read-write handle on a run of values of fixed length.
#[derive(Clone, Debug)]
pub struct FixedSizeBufferMut<T> {
    /// The values of the buffer.
    pub data: Vec<T>,
}

impl<T: Copy> FixedSizeBufferMut<T> {
    /// Wrap a run of values.
    pub(crate) fn new(data: Vec<T>) -> (r: Self)
        ensures
            r.data@ == data@,
    {
        FixedSizeBufferMut { data }
    }

    /// Number of values.
    pub fn len(&self) -> (r: usize)
        ensures
            r == self.data@.len(),
    {
        self.data.len()
    }

    /// The value at position `i`.
    pub fn get(&self, i: usize) -> (r: T)
        requires
            i < self.data@.len(),
        ensures
            r == self.data@[i as int],
    {
        self.data[i]
    }

    /// Replace the value at position `i`; the length never changes.
    pub fn set(&mut self, i: usize, value: T)
        requires
            i < old(self).data@.len(),
        ensures
            final(self).data@ == old(self).data@.update(i as int, value),
    {
        self.data[i] = value;
    }
}

/// Something a read handle can be taken from.
pub trait GetFixedSizeBufferRef<T: Copy> {
    /// The values the handle will carry.
    spec fn buffer_view(&self) -> Seq<T>;

    /// Take a read handle on the current values.
    fn get_ref(&self) -> (r: FixedSizeBufferRef<T>)
        ensures
            r.data@ == self.buffer_view(),
    ;
}

/// Something a read-write handle can be taken from.
pub trait GetFixedSizeBufferMut<T: Copy>: GetFixedSizeBufferRef<T> {
    /// Take a read-write handle on the current values.
    fn get_mut(&mut self) -> (r: FixedSizeBufferMut<T>)
        ensures
            r.data@ == old(self).buffer_view(),
            final(self).buffer_view() == old(self).buffer_view(),
    ;
}

/// A backing store on the host: it owns the values that handles are
/// taken from.
#[derive(Debug)]
pub struct FixedSizeCPUBuffer<T: Copy> {
    /// The owned values.
    pub buffer: Vec<T>,
}

impl<T: Copy> FixedSizeCPUBuffer<T> {
    /// A copy of this store that owns its own run of the same values.
    pub fn clone(&self) -> (r: Self)
        ensures
            r.buffer@ == self.buffer@,
    {
        let mut copied: Vec<T> = Vec::new();
        let mut k: usize = 0;
        while k < self.buffer.len()
            invariant
                k <= self.buffer@.len(),
                copied@ =~= self.buffer@.take(k as int),
            decreases self.buffer@.len() - k,
        {
            copied.push(self.buffer[k]);
            proof {
                assert(copied@ =~= self.buffer@.take(k + 1));
            }
            k = k + 1;
        }
        proof {
            assert(self.buffer@.take(self.buffer@.len() as int) =~= self.buffer@);
        }
        FixedSizeCPUBuffer { buffer: copied }
    }

    /// The value at position `i`.
    pub fn get(&self, i: usize) -> (r: T)
        requires
            i < self.buffer@.len(),
        ensures
            r == self.buffer@[i as int],
    {
        self.buffer[i]
    }

    /// Replace the value at position `i`; the length never changes.
    pub fn set(&mut self, i: usize, value: T)
        requires
            i < old(self).buffer@.len(),
        ensures
            final(self).buffer@ == old(self).buffer@.update(i as int, value),
    {
        self.buffer[i] = value;
    }
}

impl<T: Copy> From<Vec<T>> for FixedSizeCPUBuffer<T> {
    /// Take ownership of a run of values.
    fn from(buffer: Vec<T>) -> (r: Self) {
        FixedSizeCPUBuffer { buffer }
    }
}

impl<T: Copy> vstd::std_specs::convert::FromSpecImpl<Vec<T>> for FixedSizeCPUBuffer<T> {
    open spec fn obeys_from_spec() -> bool {
        true
    }

    open spec fn from_spec(buffer: Vec<T>) -> Self {
        FixedSizeCPUBuffer { buffer }
    }
}

impl<T: Copy> GetFixedSizeBufferRef<T> for FixedSizeCPUBuffer<T> {
    open spec fn buffer_view(&self) -> Seq<T> {
        self.buffer@
    }

    fn get_ref(&self) -> (r: FixedSizeBufferRef<T>) {
        FixedSizeBufferRef::new(self.clone().buffer)
    }
}

impl<T: Copy> GetFixedSizeBufferMut<T> for FixedSizeCPUBuffer<T> {
    fn get_mut(&mut self) -> (r: FixedSizeBufferMut<T>) {
        FixedSizeBufferMut::new(self.clone().buffer)
    }
}

/// A plain fixed-size run of values with whole-run access.
#[derive(Clone, Debug)]
pub struct FixedSizeBuffer<T: Copy> {
    /// The owned values.
    pub data: Vec<T>,
}

impl<T: Copy> FixedSizeBuffer<T> {
    /// Borrow the values as a slice.
    pub fn as_slice(&self) -> (r: &[T])
        ensures
            r@ == self.data@,
    {
        self.data.as_slice()
    }
}

} // verus!
