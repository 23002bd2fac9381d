use vstd::prelude::*;

verus! {

/// Number of bytes taken by a slice of `len` values of type `T`.
pub open spec fn spec_byte_size<T>(len: nat) -> nat {
    len * vstd::layout::size_of::<T>()
}

/// Size in bytes of the contents of `val`, as the signed size type that
/// OpenGL buffer uploads take.
pub fn byte_size_of_array<T>(val: &[T]) -> (r: isize)
    requires
        spec_byte_size::<T>(val@.len()) <= isize::MAX,
    ensures
        r as int == spec_byte_size::<T>(val@.len()),
{
    vstd::layout::layout_for_type_is_valid::<T>();
    let n: usize = val.len();
    let s: usize = core::mem::size_of::<T>();
    let b: usize = n * s;
    b as isize
}

/// Size of `T` in bytes as a 32-bit signed integer, as OpenGL strides take
/// it; a size beyond `i32::MAX` is truncated as an `as` conversion does.
pub fn size_of<T>() -> (r: i32)
    ensures
        r == (vstd::layout::size_of::<T>() as i32),
        vstd::layout::size_of::<T>() <= i32::MAX ==> r as int == vstd::layout::size_of::<T>(),
{
    vstd::layout::layout_for_type_is_valid::<T>();
    core::mem::size_of::<T>() as i32
}

/// The size of `T` truncated to 32 bits, the unit that byte offsets are counted in.
pub open spec fn spec_unit_u32<T>() -> u32 {
    vstd::layout::size_of::<T>() as u32
}

/// Offset in bytes of the `n`-th value of type `T` in a tightly packed
/// buffer. The multiplication is done in 32 bits; `requires` leaves out the
/// inputs on which it would overflow.
pub fn offset_bytes<T>(n: u32) -> (r: u32)
    requires
        n * spec_unit_u32::<T>() <= u32::MAX,
    ensures
        r == n * spec_unit_u32::<T>(),
{
    vstd::layout::layout_for_type_is_valid::<T>();
    let unit: u32 = core::mem::size_of::<T>() as u32;
    n * unit
}

/// The byte size of two arrays of `T` laid end to end is the sum of their
/// byte sizes.
pub proof fn lemma_byte_size_concat<T>(a_len: nat, b_len: nat)
    ensures
        spec_byte_size::<T>(a_len + b_len) == spec_byte_size::<T>(a_len) + spec_byte_size::<T>(
            b_len,
        ),
{
    vstd::arithmetic::mul::lemma_mul_is_distributive_add_other_way(
        vstd::layout::size_of::<T>() as int,
        a_len as int,
        b_len as int,
    );
}

/// Where the size of `T` fits in an `i32`, `size_of` gives it exactly, it is
/// not negative, and the byte size of `len` values is `len` times it.
pub proof fn lemma_size_of_fits<T>(len: nat)
    requires
        vstd::layout::size_of::<T>() <= i32::MAX,
    ensures
        (vstd::layout::size_of::<T>() as i32) as int == vstd::layout::size_of::<T>(),
        (vstd::layout::size_of::<T>() as i32) >= 0,
        spec_byte_size::<T>(len) == len * ((vstd::layout::size_of::<T>() as i32) as int),
{
}

} // verus!
