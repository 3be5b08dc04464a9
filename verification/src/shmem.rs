use vstd::prelude::*;

verus! {

/// A byte region meant to be filled once and then shared read-only.
/// Regions travel across channels as handles, not as payload bytes,
/// so a multi-megabyte region never passes through the byte stream.
pub struct SharedMemory {
    data: Vec<u8>,
}

impl View for SharedMemory {
    type V = Seq<u8>;

    closed spec fn view(&self) -> Seq<u8> {
        self.data@
    }
}

impl SharedMemory {
    /// Wraps existing bytes as a region.
    pub fn from_bytes(data: Vec<u8>) -> (r: SharedMemory)
        ensures
            r@ == data@,
    {
        SharedMemory { data }
    }

    /// Allocates a region of `length` bytes, every one equal to `byte`.
    pub fn from_byte(byte: u8, length: usize) -> (r: SharedMemory)
        ensures
            r@.len() == length,
            forall|i: int| 0 <= i < length ==> r@[i] == byte,
    {
        let mut data: Vec<u8> = Vec::new();
        let mut i: usize = 0;
        while i < length
            invariant
                i <= length,
                data@.len() == i,
                forall|j: int| 0 <= j < i ==> data@[j] == byte,
            decreases length - i,
        {
            data.push(byte);
            i = i + 1;
        }
        SharedMemory { data }
    }

    pub fn len(&self) -> (r: usize)
        ensures
            r == self@.len(),
    {
        self.data.len()
    }

    pub fn get(&self, i: usize) -> (r: u8)
        requires
            i < self@.len(),
        ensures
            r == self@[i as int],
    {
        self.data[i]
    }

    pub fn bytes(&self) -> (r: &Vec<u8>)
        ensures
            r@ == self@,
    {
        &self.data
    }

    /// A second reference to the same content. Two regions are considered
    /// equal when their lengths and bytes are equal, and this returns a
    /// region equal to `self` in that sense.
    pub fn duplicate(&self) -> (r: SharedMemory)
        ensures
            r@ == self@,
    {
        let mut data: Vec<u8> = Vec::new();
        let mut i: usize = 0;
        let n = self.data.len();
        while i < n
            invariant
                i <= n,
                n == self@.len(),
                data@.len() == i,
                forall|j: int| 0 <= j < i ==> data@[j] == self@[j],
                self@ == self.data@,
            decreases n - i,
        {
            data.push(self.data[i]);
            i = i + 1;
        }
        proof {
            assert(data@ =~= self@);
        }
        SharedMemory { data }
    }
}

} // verus!
