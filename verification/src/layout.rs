//! When a region of bytes may be read as a sequence of larger elements.
use vstd::prelude::*;

verus! {

/// A region of `byte_len` bytes starting at address `base_addr` holds a whole
/// number of elements of `elem_size` bytes, each aligned to `elem_align`.
pub open spec fn reinterpretable(
    byte_len: nat,
    base_addr: nat,
    elem_size: nat,
    elem_align: nat,
) -> bool {
    &&& elem_size > 0
    &&& elem_align > 0
    &&& byte_len % elem_size == 0
    &&& base_addr % elem_align == 0
}

/// The number of elements in a region of bytes read as elements of
/// `elem_size` bytes aligned to `elem_align`, or `None` where the region
/// cannot be read so.
pub fn reinterpreted_len(
    byte_len: usize,
    base_addr: usize,
    elem_size: usize,
    elem_align: usize,
) -> (count: Option<usize>)
    ensures
        count.is_some() <==> reinterpretable(
            byte_len as nat,
            base_addr as nat,
            elem_size as nat,
            elem_align as nat,
        ),
        count matches Some(n) ==> n == byte_len as nat / elem_size as nat,
{
    if elem_size == 0 || elem_align == 0 {
        None
    } else if byte_len % elem_size != 0 || base_addr % elem_align != 0 {
        None
    } else {
        Some(byte_len / elem_size)
    }
}

/// The number of elements of type `U` in a region of bytes, or `None` where
/// the region's length or address does not fit `U`'s layout.
pub fn reinterpreted_len_as<U>(byte_len: usize, base_addr: usize) -> (count: Option<usize>)
    ensures
        count.is_some() <==> reinterpretable(
            byte_len as nat,
            base_addr as nat,
            vstd::layout::size_of::<U>(),
            vstd::layout::align_of::<U>(),
        ),
        count matches Some(n) ==> n == byte_len as nat / vstd::layout::size_of::<U>(),
{
    reinterpreted_len(byte_len, base_addr, core::mem::size_of::<U>(), core::mem::align_of::<U>())
}

} // verus!
