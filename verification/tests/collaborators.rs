//! Tests of the dense array and the flat memory buffer.

use aslang::ndarray::{ArrayError, NDArray};
use aslang::wasm_ops::WasmRuntime;

#[test]
fn ndarray_new_builds_row_major_strides() {
    let a = NDArray::new(vec![2, 3, 4]).expect("new");
    assert_eq!(a.shape(), vec![2, 3, 4]);
    assert_eq!(a.strides, vec![12, 4, 1]);
    assert_eq!(a.data.len(), 24);
}

#[test]
fn ndarray_empty_dims_rejected() {
    match NDArray::new(vec![]) {
        Err(e) => assert_eq!(e, ArrayError::EmptyDimensions),
        Ok(_) => panic!("expected an error"),
    }
}

#[test]
fn ndarray_set_then_get_roundtrip() {
    let mut a = NDArray::new(vec![2, 3]).expect("new");
    let v = 7.5f64.to_bits();
    a.set(vec![1, 2], v).expect("set");
    assert_eq!(a.get(vec![1, 2]).expect("get"), v);
    assert_eq!(f64::from_bits(a.get(vec![1, 2]).unwrap()), 7.5);
    // the untouched cells stay zero
    assert_eq!(a.get(vec![0, 0]).expect("get"), 0u64);
    assert_eq!(a.get(vec![1, 1]).expect("get"), 0u64);
}

#[test]
fn ndarray_wrong_index_count() {
    let a = NDArray::new(vec![2, 3]).expect("new");
    assert_eq!(a.get(vec![1]).unwrap_err(), ArrayError::WrongNumberOfIndices);
    let mut b = NDArray::new(vec![2, 3]).expect("new");
    assert_eq!(b.set(vec![1, 2, 3], 1).unwrap_err(), ArrayError::WrongNumberOfIndices);
}

#[test]
fn ndarray_index_out_of_bounds() {
    let a = NDArray::new(vec![2, 3]).expect("new");
    assert_eq!(a.get(vec![2, 0]).unwrap_err(), ArrayError::IndexOutOfBounds);
    assert_eq!(a.get(vec![0, 3]).unwrap_err(), ArrayError::IndexOutOfBounds);
}

#[test]
fn wasm_runtime_allocates_blocks_in_order() {
    let mut m = WasmRuntime::new();
    let first = m.create_array(4);
    let second = m.create_array(2);
    assert_eq!(first, 0);
    assert_eq!(second, 4);
    assert_eq!(m.memory.len(), 6);
}

#[test]
fn wasm_runtime_set_and_get() {
    let mut m = WasmRuntime::new();
    let start = m.create_array(3);
    let v = 2.25f64.to_bits();
    m.set_value(start + 1, v);
    assert_eq!(m.get_value(start + 1), v);
    assert_eq!(f64::from_bits(m.get_value(start + 1)), 2.25);
    assert_eq!(m.get_value(start), 0);
}

#[test]
fn wasm_runtime_out_of_range_is_harmless() {
    let mut m = WasmRuntime::new();
    let _ = m.create_array(2);
    m.set_value(10, 5);
    assert_eq!(m.memory.len(), 2);
    assert_eq!(m.get_value(10), 0);
}
