//! A flat, growable numeric memory buffer: allocate a block, read and write
//! cells by integer offset.
//!
//! Cell values are carried as the IEEE-754 bit patterns of 64-bit
//! floating-point numbers; the buffer logic itself is exact.

use vstd::prelude::*;

verus! {

/// A flat memory of 64-bit cells. Out-of-range writes are ignored and
/// out-of-range reads give zero, as the buffer's callers expect.
pub struct WasmRuntime {
    pub memory: Vec<u64>,
}

impl WasmRuntime {
    /// An empty memory.
    pub fn new() -> (r: WasmRuntime)
        ensures
            r.memory@ == Seq::<u64>::empty(),
    {
        let r = WasmRuntime { memory: Vec::new() };
        proof {
            assert(r.memory@ =~= Seq::<u64>::empty());
        }
        r
    }

    /// Grows the memory by `size` zeroed cells and returns the index of the
    /// first new cell: the start of the allocated block. The bound is what
    /// the machine's word forces.
    pub fn create_array(&mut self, size: usize) -> (start: usize)
        requires
            old(self).memory@.len() + size <= usize::MAX,
        ensures
            start == old(self).memory@.len(),
            final(self).memory@ == old(self).memory@ + Seq::new(size as nat, |i: int| 0u64),
    {
        let start = self.memory.len();
        let mut k: usize = 0;
        while k < size
            invariant
                k <= size,
                self.memory@ == old(self).memory@ + Seq::new(k as nat, |i: int| 0u64),
            decreases size - k,
        {
            let ghost prev = self.memory@;
            self.memory.push(0u64);
            proof {
                assert(self.memory@ =~= old(self).memory@ + Seq::new(k as nat + 1, |i: int| 0u64));
            }
            k += 1;
        }
        start
    }

    /// Writes a cell; a write past the end changes nothing.
    pub fn set_value(&mut self, index: usize, value: u64)
        ensures
            index < old(self).memory@.len() ==> final(self).memory@ == old(self).memory@.update(
                index as int,
                value,
            ),
            index >= old(self).memory@.len() ==> final(self).memory@ == old(self).memory@,
    {
        if index < self.memory.len() {
            let ghost before = self.memory@;
            let _ = self.memory.remove(index);
            self.memory.insert(index, value);
            proof {
                assert(self.memory@ =~= before.update(index as int, value));
            }
        }
    }

    /// Reads a cell; a read past the end gives zero.
    pub fn get_value(&self, index: usize) -> (r: u64)
        ensures
            index < self.memory@.len() ==> r == self.memory@[index as int],
            index >= self.memory@.len() ==> r == 0u64,
    {
        if index < self.memory.len() {
            self.memory[index]
        } else {
            0u64
        }
    }
}

} // verus!
