//! The fixed-capacity byte buffer that carries data through every layer.

use vstd::prelude::*;

verus! {

/// Number of bytes a [`Data`] can hold.
pub const CAPACITY: usize = 128;

/// An append-only byte buffer of fixed capacity.
///
/// `data` is the storage and `len` the number of bytes written so far; the
/// written region is `data[..len]`.
#[derive(Clone, Copy, Debug)]
pub struct Data {
    pub data: [u8; 128],
    pub len: usize,
}

impl View for Data {
    type V = Seq<u8>;

    /// The written region: the first `len` bytes of the storage.
    open spec fn view(&self) -> Seq<u8> {
        Seq::new(self.len as nat, |i: int| self.data@[i])
    }
}

impl Data {
    /// The length cursor lies within the storage.
    pub open spec fn in_bounds(&self) -> bool {
        self.len <= CAPACITY
    }

    /// The buffer is in bounds and nothing was ever written behind the
    /// cursor, as holds of every buffer that grew from an empty one by
    /// appending.
    pub open spec fn wf(&self) -> bool {
        &&& self.in_bounds()
        &&& forall|i: int| self.len <= i < CAPACITY ==> self.data@[i] == 0
    }

    /// A buffer holding a copy of `bytes`.
    pub fn new(bytes: &[u8]) -> (out: Data)
        requires
            bytes@.len() <= CAPACITY,
        ensures
            out.wf(),
            out@ == bytes@,
            out.len == bytes@.len(),
    {
        let mut out = Data { data: [0u8; 128], len: 0 };
        out.append(bytes);
        out
    }

    /// The written region as a slice.
    pub fn to_slice(&self) -> (out: &[u8])
        requires
            self.in_bounds(),
        ensures
            out@ == self@,
    {
        let out = vstd::slice::slice_subrange(self.data.as_slice(), 0, self.len);
        assert(out@ =~= self@);
        out
    }

    /// Copies `bytes` behind the bytes already written.
    pub fn append(&mut self, bytes: &[u8])
        requires
            old(self).len + bytes@.len() <= CAPACITY,
        ensures
            final(self)@ == old(self)@ + bytes@,
            final(self).len == old(self).len + bytes@.len(),
            old(self).wf() ==> final(self).wf(),
    {
        let ghost before = *self;
        let mut i: usize = 0;
        while i < bytes.len()
            invariant
                i <= bytes@.len(),
                before.len + bytes@.len() <= CAPACITY,
                self.len == before.len + i,
                forall|k: int| 0 <= k < before.len ==> self.data@[k] == before.data@[k],
                forall|k: int| 0 <= k < i ==> self.data@[before.len + k] == bytes@[k],
                forall|k: int| self.len <= k < CAPACITY ==> self.data@[k] == before.data@[k],
            decreases bytes@.len() - i,
        {
            self.data[self.len] = bytes[i];
            self.len += 1;
            i += 1;
        }
        assert(self@ =~= before@ + bytes@);
        assert(before.wf() ==> self.wf()) by {
            if before.wf() {
                assert forall|k: int| self.len <= k < CAPACITY implies self.data@[k] == 0 by {
                    assert(self.data@[k] == before.data@[k]);
                }
            }
        }
    }

    /// Appends one byte.
    pub fn push(&mut self, byte: u8)
        requires
            old(self).len < CAPACITY,
        ensures
            final(self)@ == old(self)@.push(byte),
            final(self).len == old(self).len + 1,
            old(self).wf() ==> final(self).wf(),
    {
        let ghost before = *self;
        self.data[self.len] = byte;
        self.len += 1;
        assert(self@ =~= before@.push(byte));
    }
}

impl Default for Data {
    /// The empty buffer.
    fn default() -> (out: Data)
        ensures
            out.wf(),
            out@ == Seq::<u8>::empty(),
            out.len == 0,
    {
        Data { data: [0u8; 128], len: 0 }
    }
}

/// Two well-formed buffers with the same contents are the same value.
pub proof fn lemma_data_ext(a: Data, b: Data)
    requires
        a.wf(),
        b.wf(),
        a@ == b@,
    ensures
        a == b,
{
    assert(a@.len() == a.len);
    assert(b@.len() == b.len);
    assert forall|i: int| 0 <= i < CAPACITY implies a.data[i] == b.data[i] by {
        if i < a.len {
            assert(a@[i] == a.data@[i]);
            assert(b@[i] == b.data@[i]);
        } else {
            assert(a.data@[i] == 0);
            assert(b.data@[i] == 0);
        }
    }
    assert(a.data =~= b.data);
}

} // verus!
