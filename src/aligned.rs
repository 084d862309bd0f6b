//! Host-aligned byte buffer of the VM engine, seen through its contents.
use solana_sbpf::aligned_memory::AlignedMemory;
use vstd::prelude::*;

verus! {

#[verifier::external_type_specification]
#[verifier::external_body]
pub struct ExAlignedMemory<const ALIGN: usize>(AlignedMemory<ALIGN>);

/// Alignment of host buffers handed to the VM engine.
pub const HOST_ALIGN: usize = 16;

/// Largest capacity that an aligned buffer can be created with: a layout of
/// that many bytes rounded up to the alignment must fit in `isize`.
pub open spec fn max_aligned_len() -> int {
    isize::MAX - 15
}

/// The bytes written to an aligned buffer so far.
pub uninterp spec fn aligned_bytes(m: AlignedMemory<HOST_ALIGN>) -> Seq<u8>;

/// The capacity an aligned buffer was created with.
pub uninterp spec fn aligned_capacity(m: AlignedMemory<HOST_ALIGN>) -> nat;

/// Relies on `AlignedMemory::with_capacity`: an empty buffer that can take
/// `max_len` bytes; it panics only where the layout of `max_len` bytes is invalid.
#[verifier::external_body]
pub(crate) fn aligned_with_capacity(max_len: usize) -> (m: AlignedMemory<HOST_ALIGN>)
    requires
        max_len <= max_aligned_len(),
    ensures
        aligned_bytes(m) == Seq::<u8>::empty(),
        aligned_capacity(m) == max_len,
{
    AlignedMemory::with_capacity(max_len)
}

/// Relies on `AlignedMemory::fill_write`: appends `num` copies of `value` when
/// they fit in the capacity, and fails leaving the buffer as it was otherwise.
#[verifier::external_body]
pub(crate) fn aligned_fill_write(m: &mut AlignedMemory<HOST_ALIGN>, num: usize, value: u8) -> (r: bool)
    ensures
        aligned_capacity(*final(m)) == aligned_capacity(*old(m)),
        r == (aligned_bytes(*old(m)).len() + num <= aligned_capacity(*old(m))),
        r ==> aligned_bytes(*final(m)) == aligned_bytes(*old(m)) + Seq::new(
            num as nat,
            |i: int| value,
        ),
        !r ==> aligned_bytes(*final(m)) == aligned_bytes(*old(m)),
{
    m.fill_write(num, value).is_ok()
}

/// Relies on `<AlignedMemory as std::io::Write>::write`: appends all of `buf`
/// when it fits in the capacity, and fails leaving the buffer as it was otherwise.
#[verifier::external_body]
pub(crate) fn aligned_write(m: &mut AlignedMemory<HOST_ALIGN>, buf: &[u8]) -> (r: bool)
    ensures
        aligned_capacity(*final(m)) == aligned_capacity(*old(m)),
        r == (aligned_bytes(*old(m)).len() + buf@.len() <= aligned_capacity(*old(m))),
        r ==> aligned_bytes(*final(m)) == aligned_bytes(*old(m)) + buf@,
        !r ==> aligned_bytes(*final(m)) == aligned_bytes(*old(m)),
{
    std::io::Write::write(m, buf).is_ok()
}

/// Relies on `AlignedMemory::len`: the number of bytes written so far.
#[verifier::external_body]
pub(crate) fn aligned_len(m: &AlignedMemory<HOST_ALIGN>) -> (r: usize)
    ensures
        r == aligned_bytes(*m).len(),
{
    m.len()
}

/// Relies on `AlignedMemory::as_slice`: the bytes written so far.
#[verifier::external_body]
pub(crate) fn aligned_as_slice(m: &AlignedMemory<HOST_ALIGN>) -> (r: &[u8])
    ensures
        r@ == aligned_bytes(*m),
{
    m.as_slice()
}

} // verus!
