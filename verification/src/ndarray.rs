//! A dense multi-dimensional numeric array: bounds-checked get/set over a
//! flat backing store with row-major strides.
//!
//! Element values are carried as the IEEE-754 bit patterns of 64-bit
//! floating-point numbers; the arithmetic here is all about shapes, strides
//! and flat offsets, and is exact.

use vstd::prelude::*;

verus! {

broadcast use vstd::std_specs::vec::group_vec_axioms, vstd::seq::group_seq_axioms;

/// A failure of an array operation.
#[derive(Debug, PartialEq)]
pub enum ArrayError {
    EmptyDimensions,
    WrongNumberOfIndices,
    IndexOutOfBounds,
}

/// The product of the dimensions from position `i` on; `suffix_product(d, 0)`
/// is the element count, and `suffix_product(d, i + 1)` is the row-major
/// stride of axis `i`.
pub open spec fn suffix_product(dims: Seq<usize>, i: int) -> int
    decreases dims.len() - i,
{
    if i < 0 || i >= dims.len() {
        1
    } else {
        dims[i] * suffix_product(dims, i + 1)
    }
}

/// The flat offset of a multi-dimensional index: the stride-weighted sum of
/// the index entries from position `i` on.
pub open spec fn flat_index(indices: Seq<usize>, strides: Seq<usize>, i: int) -> int
    decreases indices.len() - i,
{
    if i < 0 || i >= indices.len() {
        0
    } else {
        indices[i] * strides[i] + flat_index(indices, strides, i + 1)
    }
}

/// With every index entry within its dimension, the flat offset from `i` on
/// is non-negative and below the remaining suffix product.
proof fn lemma_flat_bound(indices: Seq<usize>, dims: Seq<usize>, strides: Seq<usize>, i: int)
    requires
        indices.len() == dims.len(),
        strides.len() == dims.len(),
        forall|k: int| 0 <= k < dims.len() ==> (indices[k] as int) < dims[k] as int,
        forall|k: int| 0 <= k < dims.len() ==> strides[k] as int == suffix_product(dims, k + 1),
        0 <= i <= dims.len(),
    ensures
        0 <= flat_index(indices, strides, i) < suffix_product(dims, i),
    decreases dims.len() - i,
{
    if i == dims.len() {
    } else {
        lemma_flat_bound(indices, dims, strides, i + 1);
        let s = suffix_product(dims, i + 1);
        let x = indices[i] as int;
        let d = dims[i] as int;
        let f = flat_index(indices, strides, i + 1);
        assert(s > 0);
        assert(x * s >= 0 && (x + 1) * s <= d * s && x * s + s == (x + 1) * s) by (
        nonlinear_arith)
            requires
                0 <= x,
                x + 1 <= d,
                s > 0,
        ;
        assert(flat_index(indices, strides, i) == x * s + f);
        assert(suffix_product(dims, i) == d * s);
        assert(x * s + f < x * s + s);
    }
}

/// A dense array over a flat store: the element data (64-bit values), the
/// dimension sizes, and the per-axis row-major strides.
#[derive(Debug)]
pub struct NDArray {
    pub data: Vec<u64>,
    pub dims: Vec<usize>,
    pub strides: Vec<usize>,
}

impl NDArray {
    /// Shape consistency: at least one axis, one stride per axis, each stride
    /// the product of the dimensions after its axis, and exactly one data
    /// cell per index combination.
    pub open spec fn wf(&self) -> bool {
        &&& self.dims@.len() > 0
        &&& self.strides@.len() == self.dims@.len()
        &&& (forall|i: int|
            0 <= i < self.dims@.len() ==> self.strides@[i] as int == suffix_product(
                self.dims@,
                i + 1,
            ))
        &&& self.data@.len() as int == suffix_product(self.dims@, 0)
    }

    /// Builds a zero-filled array of the given shape, or reports an empty
    /// dimension list. The size bound on the suffix products is what the
    /// machine's word forces: each stride and the element count must fit.
    #[verifier::loop_isolation(false)]
    pub fn new(dims: Vec<usize>) -> (r: Result<NDArray, ArrayError>)
        requires
            forall|i: int| 0 <= i <= dims@.len() ==> suffix_product(dims@, i) <= usize::MAX as int,
        ensures
            (match r {
                Ok(a) => dims@.len() > 0 && a.wf() && a.dims@ == dims@ && (forall|k: int|
                    0 <= k < a.data@.len() ==> a.data@[k] == 0u64),
                Err(e) => dims@.len() == 0 && e == ArrayError::EmptyDimensions,
            }),
    {
        let n = dims.len();
        if n == 0 {
            return Err(ArrayError::EmptyDimensions);
        }
        let mut strides: Vec<usize> = Vec::new();
        let mut acc: usize = 1;
        let mut i: usize = n;
        while i > 0
            invariant
                i <= n,
                acc as int == suffix_product(dims@, i as int),
                strides@.len() == n - i,
                forall|k: int|
                    0 <= k < strides@.len() ==> strides@[k] as int == suffix_product(
                        dims@,
                        i + 1 + k,
                    ),
            decreases i,
        {
            let ghost prev = strides@;
            strides.insert(0, acc);
            proof {
                assert(strides@ =~= prev.insert(0, acc as usize));
                assert forall|k: int| 0 <= k < strides@.len() implies strides@[k] as int
                    == suffix_product(dims@, i as int + k) by {
                    if k > 0 {
                        assert(strides@[k] == prev[k - 1]);
                    }
                }
            }
            proof {
                assert(suffix_product(dims@, i as int - 1) == dims@[i as int - 1] * suffix_product(
                    dims@,
                    i as int,
                ));
            }
            acc = dims[i - 1] * acc;
            i -= 1;
        }
        let data: Vec<u64> = vec![0u64; acc];
        let a = NDArray { data, dims, strides };
        Ok(a)
    }

    /// Reads the element at a multi-dimensional index: the stored 64-bit
    /// value at the stride-weighted flat offset, or the index failure.
    #[verifier::loop_isolation(false)]
    pub fn get(&self, indices: Vec<usize>) -> (r: Result<u64, ArrayError>)
        requires
            self.wf(),
        ensures
            (match r {
                Ok(v) => indices@.len() == self.dims@.len() && (forall|k: int|
                    0 <= k < indices@.len() ==> (indices@[k] as int) < self.dims@[k] as int) && v
                    == self.data@[flat_index(indices@, self.strides@, 0)],
                Err(ArrayError::WrongNumberOfIndices) => indices@.len() != self.dims@.len(),
                Err(ArrayError::IndexOutOfBounds) => indices@.len() == self.dims@.len() && (
                exists|k: int|
                    0 <= k < indices@.len() && (indices@[k] as int) >= self.dims@[k] as int),
                Err(ArrayError::EmptyDimensions) => false,
            }),
    {
        let flat = self.flat_offset(&indices)?;
        proof {
            lemma_flat_bound(indices@, self.dims@, self.strides@, 0);
        }
        Ok(self.data[flat])
    }

    /// Writes the element at a multi-dimensional index, leaving everything
    /// else (and on failure, everything) unchanged.
    #[verifier::loop_isolation(false)]
    pub fn set(&mut self, indices: Vec<usize>, value: u64) -> (r: Result<(), ArrayError>)
        requires
            old(self).wf(),
        ensures
            final(self).dims == old(self).dims,
            final(self).strides == old(self).strides,
            final(self).wf(),
            (match r {
                Ok(()) => indices@.len() == old(self).dims@.len() && (forall|k: int|
                    0 <= k < indices@.len() ==> (indices@[k] as int) < old(self).dims@[k] as int)
                    && final(self).data@ == old(self).data@.update(
                    flat_index(indices@, old(self).strides@, 0),
                    value,
                ),
                Err(ArrayError::WrongNumberOfIndices) => indices@.len() != old(self).dims@.len()
                    && final(self).data == old(self).data,
                Err(ArrayError::IndexOutOfBounds) => indices@.len() == old(self).dims@.len() && (
                exists|k: int|
                    0 <= k < indices@.len() && (indices@[k] as int) >= old(self).dims@[k] as int)
                    && final(self).data == old(self).data,
                Err(ArrayError::EmptyDimensions) => false,
            }),
    {
        let flat = self.flat_offset(&indices)?;
        proof {
            lemma_flat_bound(indices@, self.dims@, self.strides@, 0);
        }
        let ghost before = self.data@;
        let _ = self.data.remove(flat);
        self.data.insert(flat, value);
        proof {
            assert(self.data@ =~= before.update(flat as int, value));
        }
        Ok(())
    }

    /// The dimension sizes, as a fresh vector.
    pub fn shape(&self) -> (r: Vec<usize>)
        ensures
            r@ == self.dims@,
    {
        let mut r: Vec<usize> = Vec::new();
        let mut i: usize = 0;
        while i < self.dims.len()
            invariant
                i <= self.dims@.len(),
                r@ == self.dims@.subrange(0, i as int),
            decreases self.dims@.len() - i,
        {
            r.push(self.dims[i]);
            proof {
                assert(r@ =~= self.dims@.subrange(0, i as int + 1));
            }
            i += 1;
        }
        proof {
            assert(self.dims@.subrange(0, self.dims@.len() as int) =~= self.dims@);
        }
        r
    }

    /// Checks a multi-dimensional index and turns it into the flat offset,
    /// which is then in bounds of the data store.
    #[verifier::loop_isolation(false)]
    fn flat_offset(&self, indices: &Vec<usize>) -> (r: Result<usize, ArrayError>)
        requires
            self.wf(),
        ensures
            (match r {
                Ok(flat) => indices@.len() == self.dims@.len() && (forall|k: int|
                    0 <= k < indices@.len() ==> (indices@[k] as int) < self.dims@[k] as int) && flat
                    as int == flat_index(indices@, self.strides@, 0) && (flat as int)
                    < self.data@.len(),
                Err(ArrayError::WrongNumberOfIndices) => indices@.len() != self.dims@.len(),
                Err(ArrayError::IndexOutOfBounds) => indices@.len() == self.dims@.len() && (
                exists|k: int|
                    0 <= k < indices@.len() && (indices@[k] as int) >= self.dims@[k] as int),
                Err(ArrayError::EmptyDimensions) => false,
            }),
    {
        let n = indices.len();
        if n != self.dims.len() {
            return Err(ArrayError::WrongNumberOfIndices);
        }
        let mut i: usize = 0;
        while i < n
            invariant
                i <= n,
                forall|k: int| 0 <= k < i ==> (indices@[k] as int) < self.dims@[k] as int,
            decreases n - i,
        {
            if indices[i] >= self.dims[i] {
                return Err(ArrayError::IndexOutOfBounds);
            }
            i += 1;
        }
        let dlen = self.data.len();
        let mut flat: usize = 0;
        let mut j: usize = n;
        while j > 0
            invariant
                j <= n,
                flat as int == flat_index(indices@, self.strides@, j as int),
            decreases j,
        {
            proof {
                lemma_flat_bound(indices@, self.dims@, self.strides@, j as int - 1);
                lemma_flat_bound(indices@, self.dims@, self.strides@, j as int);
                assert(flat_index(indices@, self.strides@, j as int - 1) == indices@[j as int - 1]
                    * self.strides@[j as int - 1] + flat_index(indices@, self.strides@, j as int));
                if j >= 2 {
                    assert(self.strides@[j as int - 2] as int == suffix_product(
                        self.dims@,
                        j as int - 1,
                    ));
                } else {
                    assert(suffix_product(self.dims@, 0) == dlen as int);
                }
            }
            flat = indices[j - 1] * self.strides[j - 1] + flat;
            j -= 1;
        }
        proof {
            lemma_flat_bound(indices@, self.dims@, self.strides@, 0);
        }
        Ok(flat)
    }
}

} // verus!
