//! Small shared helpers: byte-buffer copying and memory accounting.

use vstd::layout::size_of;
use vstd::prelude::*;

verus! {

/// Copy a byte buffer (stages that fan a frame out, or repeat one, each need
/// their own copy).
pub(crate) fn copy_bytes(v: &Vec<u8>) -> (r: Vec<u8>)
    ensures
        r@ == v@,
{
    let r = v.clone();
    proof {
        assert forall|i: int| 0 <= i < v@.len() implies r@[i] == v@[i] by {}
        assert(r@ =~= v@);
    }
    r
}

/// The memory a vector occupies: its elements plus the vector header itself
/// (the heap capacity beyond `len` is not counted).
pub fn size_of_vec<T>(vec: &Vec<T>) -> (r: usize)
    requires
        vec@.len() * size_of::<T>() + size_of::<Vec<T>>() <= usize::MAX,
    ensures
        r == vec@.len() * size_of::<T>() + size_of::<Vec<T>>(),
{
    let element_size = core::mem::size_of::<T>();
    let metadata_size = core::mem::size_of::<Vec<T>>();
    vec.len() * element_size + metadata_size
}

} // verus!
